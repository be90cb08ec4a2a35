//! PL011 UART.
//!
//! Functional model: transmission is instantaneous (the output FIFO is always
//! empty) and the bytes end up in a buffer read by the host; reception draws
//! from an input queue filled by the host. Baud rate and line format are stored
//! but have no effect.
//!
//! - Transmission happens even with UARTEN or TXE off (the earlycon needs it).
//! - Reception happens only with UARTEN and RXE on: until then the bytes stay in
//!   the host's queue and are not lost.
//! - The RX interrupt fires as soon as the FIFO holds a byte and drops when the
//!   FIFO empties; IFLS is only stored.
//! - TXRIS rises at every write to DR and falls only with ICR.
use vstd::prelude::*;
use std::collections::VecDeque;
use crate::platform::bus::{sub_word, spec_sub_word, MmioDevice};

verus! {

pub const DR: u64 = 0x000;
pub const RSR_ECR: u64 = 0x004;
pub const FR: u64 = 0x018;
pub const ILPR: u64 = 0x020;
pub const IBRD: u64 = 0x024;
pub const FBRD: u64 = 0x028;
pub const LCR_H: u64 = 0x02C;
pub const CR: u64 = 0x030;
pub const IFLS: u64 = 0x034;
pub const IMSC: u64 = 0x038;
pub const RIS: u64 = 0x03C;
pub const MIS: u64 = 0x040;
pub const ICR: u64 = 0x044;
pub const DMACR: u64 = 0x048;
/// First identification register (PeriphID0); PeriphID1-3 and CellID0-3 follow.
pub const PERIPH_ID0: u64 = 0xFE0;

/// Bits of FR.
pub const FR_BUSY: u32 = 0x08;
pub const FR_RXFE: u32 = 0x10;
pub const FR_TXFF: u32 = 0x20;
pub const FR_RXFF: u32 = 0x40;
pub const FR_TXFE: u32 = 0x80;

/// Bit of LCR_H: enables the FIFOs.
pub const LCR_H_FEN: u32 = 0x10;

/// Bits of CR.
pub const CR_UARTEN: u32 = 0x001;
pub const CR_LBE: u32 = 0x080;
pub const CR_TXE: u32 = 0x100;
pub const CR_RXE: u32 = 0x200;

/// Bits of the interrupts (IMSC, RIS, MIS, ICR).
pub const INT_RX: u32 = 0x10;
pub const INT_TX: u32 = 0x20;
pub const INT_RT: u32 = 0x40;
pub const INT_MASK: u32 = 0x7FF;

/// Depth of the receive FIFO with LCR_H.FEN on.
pub const FIFO_DEPTH: usize = 16;

/// PeriphID0-3 and CellID0-3.
pub open spec fn id_byte(i: int) -> u32 {
    seq![0x11u32, 0x10, 0x14, 0x00, 0x0D, 0xF0, 0x05, 0xB1][i]
}

fn read_id(i: u64) -> (r: u32)
    requires
        i < 8,
    ensures
        r == id_byte(i as int),
{
    match i {
        0 => 0x11,
        1 => 0x10,
        2 => 0x14,
        3 => 0x00,
        4 => 0x0D,
        5 => 0xF0,
        6 => 0x05,
        _ => 0xB1,
    }
}

#[derive(Clone, Debug)]
pub struct Pl011 {
    /// Bytes that the host wants the guest to get, not yet in the FIFO.
    pub input: VecDeque<u8>,
    /// Receive FIFO (8-bit data plus 4 error bits, always zero here).
    pub rx_fifo: VecDeque<u16>,
    /// Bytes transmitted by the guest, waiting for the host to read them.
    pub output: Vec<u8>,
    pub rsr: u32,
    pub ilpr: u32,
    pub ibrd: u32,
    pub fbrd: u32,
    pub lcr_h: u32,
    pub cr: u32,
    pub ifls: u32,
    pub imsc: u32,
    pub ris: u32,
    pub dmacr: u32,
}

/// What a [`Pl011`] holds.
#[verifier::ext_equal]
pub struct Uart {
    pub input: Seq<u8>,
    pub rx_fifo: Seq<u16>,
    pub output: Seq<u8>,
    pub rsr: u32,
    pub ilpr: u32,
    pub ibrd: u32,
    pub fbrd: u32,
    pub lcr_h: u32,
    pub cr: u32,
    pub ifls: u32,
    pub imsc: u32,
    pub ris: u32,
    pub dmacr: u32,
}

impl View for Pl011 {
    type V = Uart;

    open spec fn view(&self) -> Uart {
        Uart {
            input: self.input@,
            rx_fifo: self.rx_fifo@,
            output: self.output@,
            rsr: self.rsr,
            ilpr: self.ilpr,
            ibrd: self.ibrd,
            fbrd: self.fbrd,
            lcr_h: self.lcr_h,
            cr: self.cr,
            ifls: self.ifls,
            imsc: self.imsc,
            ris: self.ris,
            dmacr: self.dmacr,
        }
    }
}

/// Bytes as they sit in the receive FIFO.
pub open spec fn widened(bytes: Seq<u8>) -> Seq<u16> {
    bytes.map_values(|b: u8| b as u16)
}

impl Uart {
    /// Reset state (CR = 0x300, IFLS = 0x12).
    pub open spec fn reset() -> Uart {
        Uart {
            input: Seq::empty(),
            rx_fifo: Seq::empty(),
            output: Seq::empty(),
            rsr: 0,
            ilpr: 0,
            ibrd: 0,
            fbrd: 0,
            lcr_h: 0,
            cr: CR_TXE | CR_RXE,
            ifls: 0x12,
            imsc: 0,
            ris: 0,
            dmacr: 0,
        }
    }

    pub open spec fn depth(self) -> nat {
        if self.lcr_h & LCR_H_FEN != 0 { 16 } else { 1 }
    }

    pub open spec fn rx_enabled(self) -> bool {
        self.cr & (CR_UARTEN | CR_RXE) == CR_UARTEN | CR_RXE
    }

    /// The receive FIFO never holds more than its depth.
    pub open spec fn wf(self) -> bool {
        self.rx_fifo.len() <= self.depth()
    }

    /// Everything the guest has still to read, in order.
    pub open spec fn pending(self) -> Seq<u16> {
        self.rx_fifo + widened(self.input)
    }

    /// Bytes that go from the host's queue to the FIFO: as many as fit.
    pub open spec fn moved(self) -> nat {
        let room = if self.rx_fifo.len() < self.depth() {
            (self.depth() - self.rx_fifo.len()) as nat
        } else {
            0
        };
        if room <= self.input.len() { room } else { self.input.len() }
    }

    /// The state after the FIFO has been filled from the host's queue.
    pub open spec fn filled(self) -> Uart {
        if !self.rx_enabled() {
            self
        } else {
            let fifo = self.rx_fifo + widened(self.input.take(self.moved() as int));
            Uart {
                input: self.input.skip(self.moved() as int),
                rx_fifo: fifo,
                ris: if fifo.len() > 0 { self.ris | INT_RX } else { self.ris },
                ..self
            }
        }
    }

    pub open spec fn flags(self) -> u32 {
        let empty = if self.rx_fifo.len() == 0 { FR_TXFE | FR_RXFE } else { FR_TXFE };
        if self.rx_fifo.len() >= self.depth() { empty | FR_RXFF } else { empty }
    }

    /// The value of the register at the aligned offset `reg`.
    pub open spec fn reg_value(self, reg: u64) -> u32 {
        if reg == DR {
            if self.rx_fifo.len() > 0 { self.rx_fifo[0] as u32 } else { 0 }
        } else if reg == RSR_ECR {
            self.rsr
        } else if reg == FR {
            self.flags()
        } else if reg == ILPR {
            self.ilpr
        } else if reg == IBRD {
            self.ibrd
        } else if reg == FBRD {
            self.fbrd
        } else if reg == LCR_H {
            self.lcr_h
        } else if reg == CR {
            self.cr
        } else if reg == IFLS {
            self.ifls
        } else if reg == IMSC {
            self.imsc
        } else if reg == RIS {
            self.ris
        } else if reg == MIS {
            self.ris & self.imsc
        } else if reg == DMACR {
            self.dmacr
        } else if PERIPH_ID0 <= reg <= 0xFFC {
            id_byte((reg - PERIPH_ID0) / 4)
        } else {
            0
        }
    }

    /// The state after one value has left the FIFO through DR.
    pub open spec fn popped(self) -> Uart {
        let fifo = if self.rx_fifo.len() > 0 { self.rx_fifo.skip(1) } else { self.rx_fifo };
        Uart {
            rx_fifo: fifo,
            ris: if fifo.len() == 0 { self.ris & !(INT_RX | INT_RT) } else { self.ris },
            ..self
        }
    }

    /// The state after a read of the register at offset `reg`: only DR has an
    /// effect.
    pub open spec fn reg_read(self, reg: u64) -> Uart {
        if reg == DR { self.popped().filled() } else { self }
    }

    /// The state after the guest has transmitted `byte`.
    pub open spec fn transmitted(self, byte: u8) -> Uart {
        if self.cr & CR_LBE != 0 {
            // Loopback: the byte comes back to the receive FIFO.
            if self.rx_fifo.len() < self.depth() {
                Uart {
                    rx_fifo: self.rx_fifo.push(byte as u16),
                    ris: self.ris | INT_RX | INT_TX,
                    ..self
                }
            } else {
                Uart { ris: self.ris | INT_TX, ..self }
            }
        } else {
            Uart { output: self.output.push(byte), ris: self.ris | INT_TX, ..self }
        }
    }

    /// The state after `v` is written to the register at offset `reg`.
    pub open spec fn reg_written(self, reg: u64, v: u32) -> Uart {
        if reg == DR {
            self.transmitted(v as u8)
        } else if reg == RSR_ECR {
            Uart { rsr: 0, ..self }
        } else if reg == ILPR {
            Uart { ilpr: v & 0xFF, ..self }
        } else if reg == IBRD {
            Uart { ibrd: v & 0xFFFF, ..self }
        } else if reg == FBRD {
            Uart { fbrd: v & 0x3F, ..self }
        } else if reg == LCR_H {
            // Changing FEN empties the FIFO; the host's queue stays.
            let cleared = if (self.lcr_h ^ v) & LCR_H_FEN != 0 {
                Uart { rx_fifo: Seq::empty(), ris: self.ris & !(INT_RX | INT_RT), ..self }
            } else {
                self
            };
            (Uart { lcr_h: v & 0xFF, ..cleared }).filled()
        } else if reg == CR {
            (Uart { cr: v & 0xFF87, ..self }).filled()
        } else if reg == IFLS {
            Uart { ifls: v & 0x3F, ..self }
        } else if reg == IMSC {
            Uart { imsc: v & INT_MASK, ..self }
        } else if reg == ICR {
            Uart { ris: self.ris & !(v & INT_MASK), ..self }
        } else if reg == DMACR {
            Uart { dmacr: v & 0x7, ..self }
        } else {
            self
        }
    }

    /// What a read of `size` bytes at `offset` gives.
    pub open spec fn mmio_value(self, offset: u64, size: u8) -> u64 {
        if offset >= 0x1000 || size > 4 {
            0
        } else {
            spec_sub_word(self.reg_value((offset - offset % 4) as u64), offset, size)
        }
    }

    /// The state after a read of `size` bytes at `offset`.
    pub open spec fn mmio_read(self, offset: u64, size: u8) -> Uart {
        if offset >= 0x1000 || size > 4 {
            self
        } else {
            self.reg_read((offset - offset % 4) as u64)
        }
    }

    /// The state after a write of `size` bytes at `offset`: only accesses that
    /// are aligned to the register count.
    pub open spec fn mmio_written(self, offset: u64, size: u8, value: u64) -> Uart {
        if offset >= 0x1000 || size > 4 || offset % 4 != 0 {
            self
        } else {
            self.reg_written(offset, value as u32)
        }
    }
}

impl Default for Pl011 {
    fn default() -> (r: Self)
        ensures
            r@ == Uart::reset(),
    {
        Pl011::new()
    }
}

impl Pl011 {
    /// UART in its reset state.
    pub fn new() -> (r: Self)
        ensures
            r@ == Uart::reset(),
            r@.wf(),
    {
        Pl011 {
            input: VecDeque::new(),
            rx_fifo: VecDeque::new(),
            output: Vec::new(),
            rsr: 0,
            ilpr: 0,
            ibrd: 0,
            fbrd: 0,
            lcr_h: 0,
            cr: CR_TXE | CR_RXE,
            ifls: 0x12,
            imsc: 0,
            ris: 0,
            dmacr: 0,
        }
    }

    /// Queues input bytes for the guest.
    pub fn push_input(&mut self, bytes: &[u8])
        requires
            old(self)@.wf(),
        ensures
            final(self)@ == (Uart { input: old(self)@.input + bytes@, ..old(self)@ }).filled(),
            final(self)@.wf(),
    {
        let mut i: usize = 0;
        while i < bytes.len()
            invariant
                i <= bytes@.len(),
                self@ == (Uart { input: old(self)@.input + bytes@.take(i as int), ..old(self)@ }),
            decreases bytes@.len() - i,
        {
            self.input.push_back(bytes[i]);
            i += 1;
            assert(self@.input =~= old(self)@.input + bytes@.take(i as int));
        }
        assert(bytes@.take(bytes@.len() as int) =~= bytes@);
        self.fill_rx();
    }

    /// Input bytes not yet read by the guest (host queue + FIFO).
    pub fn pending_input(&self) -> (r: usize)
        requires
            self@.pending().len() <= usize::MAX,
        ensures
            r == self@.pending().len(),
    {
        self.input.len() + self.rx_fifo.len()
    }

    /// Output accumulated by the guest, without consuming it.
    pub fn output(&self) -> (r: &[u8])
        ensures
            r@ == self@.output,
    {
        self.output.as_slice()
    }

    /// Consumes and returns the accumulated output.
    pub fn take_output(&mut self) -> (r: Vec<u8>)
        ensures
            r@ == old(self)@.output,
            final(self)@ == (Uart { output: Seq::empty(), ..old(self)@ }),
    {
        let mut out: Vec<u8> = Vec::new();
        core::mem::swap(&mut out, &mut self.output);
        out
    }

    /// Level of the IRQ line towards the GIC (UARTINTR): high if an unmasked
    /// interrupt is active.
    pub fn irq_level(&self) -> (r: bool)
        ensures
            r == (self@.ris & self@.imsc != 0),
    {
        self.ris & self.imsc != 0
    }

    fn fifo_depth(&self) -> (r: usize)
        ensures
            r == self@.depth(),
    {
        if self.lcr_h & LCR_H_FEN != 0 { FIFO_DEPTH } else { 1 }
    }

    fn rx_enabled(&self) -> (r: bool)
        ensures
            r == self@.rx_enabled(),
    {
        self.cr & (CR_UARTEN | CR_RXE) == CR_UARTEN | CR_RXE
    }

    /// Moves bytes from the host's queue to the FIFO while there is room.
    fn fill_rx(&mut self)
        ensures
            final(self)@ == old(self)@.filled(),
            old(self)@.wf() ==> final(self)@.wf(),
    {
        if !self.rx_enabled() {
            return ;
        }
        let depth: usize = self.fifo_depth();
        let ghost pre = self@;
        let ghost mut n: nat = 0;
        while self.rx_fifo.len() < depth && self.input.len() > 0
            invariant
                depth == pre.depth(),
                n <= pre.moved(),
                n < pre.moved() || self@.rx_fifo.len() >= depth || self@.input.len() == 0,
                self@ == (Uart {
                    input: pre.input.skip(n as int),
                    rx_fifo: pre.rx_fifo + widened(pre.input.take(n as int)),
                    ..pre
                }),
            decreases self@.input.len(),
        {
            match self.input.pop_front() {
                Some(b) => {
                    self.rx_fifo.push_back(b as u16);
                    proof {
                        n = n + 1;
                        assert(pre.input.skip(n as int) =~= pre.input.skip(n - 1).skip(1));
                        assert(pre.rx_fifo + widened(pre.input.take(n as int)) =~= (pre.rx_fifo
                            + widened(pre.input.take(n - 1))).push(b as u16));
                    }
                },
                None => {},
            }
        }
        assert(n == pre.moved());
        if self.rx_fifo.len() > 0 {
            self.ris = self.ris | INT_RX;
        }
    }

    fn flags(&self) -> (r: u32)
        ensures
            r == self@.flags(),
    {
        let mut fr: u32 = FR_TXFE;
        if self.rx_fifo.len() == 0 {
            fr = fr | FR_RXFE;
        }
        if self.rx_fifo.len() >= self.fifo_depth() {
            fr = fr | FR_RXFF;
        }
        fr
    }

    fn read_reg(&mut self, reg: u64) -> (r: u32)
        requires
            old(self)@.wf(),
        ensures
            r == old(self)@.reg_value(reg),
            final(self)@ == old(self)@.reg_read(reg),
            final(self)@.wf(),
    {
        match reg {
            DR => {
                let v: u16 = match self.rx_fifo.pop_front() {
                    Some(x) => x,
                    None => 0,
                };
                if self.rx_fifo.len() == 0 {
                    self.ris = self.ris & !(INT_RX | INT_RT);
                }
                assert(self@ == old(self)@.popped());
                self.fill_rx();
                v as u32
            },
            RSR_ECR => self.rsr,
            FR => self.flags(),
            ILPR => self.ilpr,
            IBRD => self.ibrd,
            FBRD => self.fbrd,
            LCR_H => self.lcr_h,
            CR => self.cr,
            IFLS => self.ifls,
            IMSC => self.imsc,
            RIS => self.ris,
            MIS => self.ris & self.imsc,
            DMACR => self.dmacr,
            0xFE0..=0xFFC => read_id((reg - PERIPH_ID0) / 4),
            _ => 0,
        }
    }

    fn write_reg(&mut self, reg: u64, v: u32)
        requires
            old(self)@.wf(),
        ensures
            final(self)@ == old(self)@.reg_written(reg, v),
            final(self)@.wf(),
    {
        match reg {
            DR => {
                let byte: u8 = v as u8;
                if self.cr & CR_LBE != 0 {
                    if self.rx_fifo.len() < self.fifo_depth() {
                        self.rx_fifo.push_back(byte as u16);
                        self.ris = self.ris | INT_RX;
                    }
                } else {
                    self.output.push(byte);
                }
                self.ris = self.ris | INT_TX;
            },
            RSR_ECR => {
                self.rsr = 0;
            },
            ILPR => {
                self.ilpr = v & 0xFF;
            },
            IBRD => {
                self.ibrd = v & 0xFFFF;
            },
            FBRD => {
                self.fbrd = v & 0x3F;
            },
            LCR_H => {
                let was: u32 = self.lcr_h;
                if (was ^ v) & LCR_H_FEN != 0 {
                    self.rx_fifo.clear();
                    self.ris = self.ris & !(INT_RX | INT_RT);
                }
                self.lcr_h = v & 0xFF;
                assert((was ^ v) & 0x10 == 0 ==> (v & 0xFF) & 0x10 == was & 0x10) by (bit_vector);
                self.fill_rx();
            },
            CR => {
                self.cr = v & 0xFF87;
                self.fill_rx();
            },
            IFLS => {
                self.ifls = v & 0x3F;
            },
            IMSC => {
                self.imsc = v & INT_MASK;
            },
            ICR => {
                self.ris = self.ris & !(v & INT_MASK);
            },
            DMACR => {
                self.dmacr = v & 0x7;
            },
            _ => {},
        }
    }
}

impl MmioDevice for Pl011 {
    open spec fn inv(&self) -> bool {
        self@.wf()
    }

    open spec fn reads(pre: Self, offset: u64, size: u8, post: Self, value: u64) -> bool {
        post@ == pre@.mmio_read(offset, size) && value == pre@.mmio_value(offset, size)
    }

    open spec fn writes(pre: Self, offset: u64, size: u8, value: u64, post: Self) -> bool {
        post@ == pre@.mmio_written(offset, size, value)
    }

    fn read(&mut self, offset: u64, size: u8) -> (value: u64) {
        if offset >= 0x1000 || size > 4 {
            return 0;
        }
        let word: u32 = self.read_reg(offset - offset % 4);
        sub_word(word, offset, size)
    }

    fn write(&mut self, offset: u64, size: u8, value: u64) {
        if offset >= 0x1000 || size > 4 || offset % 4 != 0 {
            return ;
        }
        self.write_reg(offset, value as u32);
    }
}

/// Filling the FIFO loses no byte and keeps their order.
pub proof fn law_filling_keeps_pending(u: Uart)
    ensures
        u.filled().pending() == u.pending(),
{
    if u.rx_enabled() {
        let n = u.moved() as int;
        assert(u.input =~= u.input.take(n) + u.input.skip(n));
        assert(u.filled().pending() =~= u.pending());
    }
}

/// What the host queues comes after everything that was pending already.
pub proof fn law_input_queues_at_the_end(u: Uart, bytes: Seq<u8>)
    ensures
        (Uart { input: u.input + bytes, ..u }).filled().pending() == u.pending() + widened(bytes),
{
    law_filling_keeps_pending(Uart { input: u.input + bytes, ..u });
    assert((Uart { input: u.input + bytes, ..u }).pending() =~= u.pending() + widened(bytes));
}

/// A read of DR gives the first pending byte, if the FIFO holds it, and takes it
/// out; the others stay in order.
pub proof fn law_dr_reads_in_order(u: Uart)
    requires
        u.rx_fifo.len() > 0,
    ensures
        u.reg_value(DR) == u.pending()[0],
        u.reg_read(DR).pending() == u.pending().skip(1),
{
    law_filling_keeps_pending(u.popped());
    assert(u.popped().pending() =~= u.pending().skip(1));
}

/// With reception off nothing reaches the guest and nothing is lost.
pub proof fn law_input_waits_for_reception(u: Uart, bytes: Seq<u8>)
    requires
        !u.rx_enabled(),
    ensures
        (Uart { input: u.input + bytes, ..u }).filled().rx_fifo == u.rx_fifo,
        (Uart { input: u.input + bytes, ..u }).filled().input == u.input + bytes,
{
}

/// Transmission does not look at UARTEN or TXE: outside loopback every byte
/// reaches the host.
pub proof fn law_transmission_reaches_host(u: Uart, v: u32)
    requires
        u.cr & CR_LBE == 0,
    ensures
        u.reg_written(DR, v).output == u.output.push(v as u8),
{
}

} // verus!
