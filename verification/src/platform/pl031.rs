//! PL031 RTC.
//!
//! Time comes from outside with [`Pl031::set_time`] (seconds since the Unix
//! epoch): the device never reads the host's clock. DR is `time + offset`, on
//! 32 bits with modular arithmetic; writing LR changes the offset.
//!
//! CR always reads 1 (the RTC always runs) and ignores writes; any write to
//! ICR clears the interrupt; the alarm fires when DR reaches MR going forward,
//! or at once if after a write of MR or LR the two are equal.
use vstd::prelude::*;
use crate::platform::bus::{sub_word, spec_sub_word, MmioDevice};

verus! {

pub const DR: u64 = 0x00;
pub const MR: u64 = 0x04;
pub const LR: u64 = 0x08;
pub const CR: u64 = 0x0C;
pub const IMSC: u64 = 0x10;
pub const RIS: u64 = 0x14;
pub const MIS: u64 = 0x18;
pub const ICR: u64 = 0x1C;
pub const PERIPH_ID0: u64 = 0xFE0;

/// PeriphID0-3 and CellID0-3.
pub open spec fn id_byte(i: int) -> u32 {
    seq![0x31u32, 0x10, 0x14, 0x00, 0x0D, 0xF0, 0x05, 0xB1][i]
}

fn read_id(i: u64) -> (r: u32)
    requires
        i < 8,
    ensures
        r == id_byte(i as int),
{
    match i {
        0 => 0x31,
        1 => 0x10,
        2 => 0x14,
        3 => 0x00,
        4 => 0x0D,
        5 => 0xF0,
        6 => 0x05,
        _ => 0xB1,
    }
}

#[derive(Clone, Debug, PartialEq, Eq, Structural)]
pub struct Pl031 {
    /// Last time received from outside, in seconds.
    pub now: u64,
    /// DR = (now + offset) mod 2^32.
    pub offset: u32,
    pub mr: u32,
    pub lr: u32,
    pub imsc: u32,
    pub ris: u32,
}

impl Default for Pl031 {
    fn default() -> (r: Self)
        ensures
            r == Pl031::at(0),
    {
        Pl031::new(0)
    }
}

impl Pl031 {
    pub open spec fn at(now: u64) -> Pl031 {
        Pl031 { now, offset: 0, mr: 0, lr: 0, imsc: 0, ris: 0 }
    }

    /// RTC with DR equal to `now_secs` (truncated to 32 bits).
    pub fn new(now_secs: u64) -> (r: Self)
        ensures
            r == Self::at(now_secs),
    {
        Pl031 { now: now_secs, offset: 0, mr: 0, lr: 0, imsc: 0, ris: 0 }
    }

    /// DR: the time plus the offset, modulo 2^32.
    pub open spec fn dr(self) -> u32 {
        ((self.now + self.offset) % 0x1_0000_0000) as u32
    }

    /// Current value of the counter (DR).
    pub fn count(&self) -> (r: u32)
        ensures
            r == self.dr(),
    {
        let low: u32 = (self.now % 0x1_0000_0000) as u32;
        low.wrapping_add(self.offset)
    }

    /// Seconds that the counter has to advance to reach MR (0 if it is there).
    pub open spec fn to_match(self) -> int {
        (self.mr - self.dr()) % 0x1_0000_0000
    }

    /// The counter meets MR on the way from `self.now` forward to `to`.
    pub open spec fn passes_match(self, to: u64) -> bool {
        exists|t: int|
            self.now < t <= to && #[trigger] ((t + self.offset) % 0x1_0000_0000) == self.mr
    }

    /// Updates the time. If the counter advances until it reaches or passes MR,
    /// the alarm fires. A time that goes back fires nothing.
    pub fn set_time(&mut self, now_secs: u64)
        ensures
            *final(self) == (Pl031 {
                now: now_secs,
                ris: if old(self).passes_match(now_secs) { 1 } else { old(self).ris },
                ..*old(self)
            }),
    {
        let before: u32 = self.count();
        let advance: u64 = now_secs.saturating_sub(self.now);
        let ghost pre = *self;
        self.now = now_secs;
        if advance == 0 {
            return ;
        }
        let to_match: u64 = self.mr.wrapping_sub(before) as u64;
        proof {
            let d: int = if to_match == 0 { 0x1_0000_0000 } else { to_match as int };
            assert((pre.now + d + pre.offset) % 0x1_0000_0000 == pre.mr);
            if d <= advance {
                let t = pre.now + d;
                assert((t + pre.offset) % 0x1_0000_0000 == pre.mr);
                assert(pre.passes_match(now_secs));
            } else {
                assert forall|t: int| pre.now < t <= now_secs implies #[trigger] ((t + pre.offset)
                    % 0x1_0000_0000) != pre.mr by {
                    let k = t - pre.now;
                    assert(0 < k < d);
                }
            }
        }
        if (to_match != 0 && to_match <= advance) || advance >= 0x1_0000_0000 {
            self.ris = 1;
        }
    }

    /// Seconds left until the alarm, if the interrupt is not active already.
    pub fn seconds_to_alarm(&self) -> (r: Option<u32>)
        ensures
            r == (if self.ris == 0 && self.to_match() != 0 {
                Some(self.to_match() as u32)
            } else {
                None
            }),
    {
        let left: u32 = self.mr.wrapping_sub(self.count());
        if self.ris == 0 && left != 0 {
            Some(left)
        } else {
            None
        }
    }

    /// Level of the IRQ line towards the GIC (RTCINTR).
    pub fn irq_level(&self) -> (r: bool)
        ensures
            r == (self.ris & self.imsc != 0),
    {
        self.ris & self.imsc != 0
    }

    /// The state after the alarm is looked at: it fires if MR equals DR.
    pub open spec fn alarm_checked(self) -> Pl031 {
        if self.mr == self.dr() {
            Pl031 { ris: 1, ..self }
        } else {
            self
        }
    }

    fn check_alarm_now(&mut self)
        ensures
            *final(self) == old(self).alarm_checked(),
    {
        if self.mr == self.count() {
            self.ris = 1;
        }
    }

    /// The value of the register at the aligned offset `reg`.
    pub open spec fn reg_value(self, reg: u64) -> u32 {
        if reg == DR {
            self.dr()
        } else if reg == MR {
            self.mr
        } else if reg == LR {
            self.lr
        } else if reg == CR {
            1
        } else if reg == IMSC {
            self.imsc
        } else if reg == RIS {
            self.ris
        } else if reg == MIS {
            self.ris & self.imsc
        } else if PERIPH_ID0 <= reg <= 0xFFC {
            id_byte((reg - PERIPH_ID0) / 4)
        } else {
            0
        }
    }

    fn read_reg(&self, reg: u64) -> (r: u32)
        ensures
            r == self.reg_value(reg),
    {
        match reg {
            DR => self.count(),
            MR => self.mr,
            LR => self.lr,
            CR => 1,
            IMSC => self.imsc,
            RIS => self.ris,
            MIS => self.ris & self.imsc,
            0xFE0..=0xFFC => read_id((reg - PERIPH_ID0) / 4),
            _ => 0,
        }
    }

    /// The state after `v` is written to the register at offset `reg`.
    pub open spec fn reg_written(self, reg: u64, v: u32) -> Pl031 {
        if reg == MR {
            (Pl031 { mr: v, ..self }).alarm_checked()
        } else if reg == LR {
            // DR becomes `v`.
            (Pl031 {
                offset: ((v - self.now) % 0x1_0000_0000) as u32,
                lr: v,
                ..self
            }).alarm_checked()
        } else if reg == IMSC {
            Pl031 { imsc: v & 1, ..self }
        } else if reg == ICR {
            Pl031 { ris: 0, ..self }
        } else {
            self
        }
    }

    fn write_reg(&mut self, reg: u64, v: u32)
        ensures
            *final(self) == old(self).reg_written(reg, v),
    {
        match reg {
            MR => {
                self.mr = v;
                self.check_alarm_now();
            },
            LR => {
                let low: u32 = (self.now % 0x1_0000_0000) as u32;
                self.offset = v.wrapping_sub(low);
                self.lr = v;
                self.check_alarm_now();
            },
            IMSC => {
                self.imsc = v & 1;
            },
            ICR => {
                self.ris = 0;
            },
            _ => {},
        }
    }

    /// What a read of `size` bytes at `offset` gives.
    pub open spec fn mmio_value(self, offset: u64, size: u8) -> u64 {
        if offset >= 0x1000 || size > 4 {
            0
        } else {
            spec_sub_word(self.reg_value((offset - offset % 4) as u64), offset, size)
        }
    }

    /// The state after a write of `size` bytes at `offset`.
    pub open spec fn mmio_written(self, offset: u64, size: u8, value: u64) -> Pl031 {
        if offset >= 0x1000 || size != 4 || offset % 4 != 0 {
            self
        } else {
            self.reg_written(offset, (value % 0x1_0000_0000) as u32)
        }
    }
}

impl MmioDevice for Pl031 {
    open spec fn inv(&self) -> bool {
        true
    }

    open spec fn reads(pre: Self, offset: u64, size: u8, post: Self, value: u64) -> bool {
        post == pre && value == pre.mmio_value(offset, size)
    }

    open spec fn writes(pre: Self, offset: u64, size: u8, value: u64, post: Self) -> bool {
        post == pre.mmio_written(offset, size, value)
    }

    fn read(&mut self, offset: u64, size: u8) -> (value: u64) {
        if offset >= 0x1000 || size > 4 {
            return 0;
        }
        sub_word(self.read_reg(offset - offset % 4), offset, size)
    }

    fn write(&mut self, offset: u64, size: u8, value: u64) {
        if offset >= 0x1000 || size != 4 || offset % 4 != 0 {
            return ;
        }
        self.write_reg(offset, (value % 0x1_0000_0000) as u32);
    }
}

/// Writing LR sets the counter: DR reads back the value written.
pub proof fn law_lr_sets_dr(r: Pl031, v: u32)
    ensures
        r.reg_written(LR, v).dr() == v,
        r.reg_written(LR, v).lr == v,
{
}

/// With the interrupt inactive, the alarm fires exactly when the time moves
/// forward by at least the announced number of seconds.
pub proof fn law_alarm_comes_when_announced(r: Pl031, to: u64)
    requires
        r.to_match() != 0,
        r.now <= to,
        to - r.now < 0x1_0000_0000,
    ensures
        r.passes_match(to) <==> to - r.now >= r.to_match(),
{
    let d = r.to_match();
    assert((r.now + d + r.offset) % 0x1_0000_0000 == r.mr);
    if to - r.now >= d {
        let t = r.now + d;
        assert((t + r.offset) % 0x1_0000_0000 == r.mr);
    } else {
        assert forall|t: int| r.now < t <= to implies #[trigger] ((t + r.offset) % 0x1_0000_0000)
            != r.mr by {
            assert(0 < t - r.now < d);
        }
    }
}

/// A time that does not move forward never fires the alarm.
pub proof fn law_backwards_is_silent(r: Pl031, to: u64)
    requires
        to <= r.now,
    ensures
        !r.passes_match(to),
{
}

} // verus!
