//! ARM generic timer: physical (CNTP) and virtual (CNTV)
//! channels of one CPU.
//!
//! The counter does not live here: every function receives the value of the
//! physical counter (CNTPCT_EL0) from outside, so time stays deterministic
//! and can be recorded. The virtual counter is `CNTPCT - CNTVOFF`.
//!
//! - ISTATUS = ENABLE && counter >= CVAL (unsigned comparison);
//! - with ENABLE off ISTATUS reads 0 and the line is low;
//! - the IRQ line is ISTATUS && !IMASK;
//! - TVAL reads as `(CVAL - counter)[31:0]`, writing it sets
//!   `CVAL = counter + SignExtend(TVAL[31:0])`.
use vstd::prelude::*;

verus! {

/// Bits of CNTx_CTL_EL0.
pub const CTL_ENABLE: u64 = 1;
pub const CTL_IMASK: u64 = 2;
pub const CTL_ISTATUS: u64 = 4;

/// One channel of the timer (CTL and CVAL). The methods receive the value of
/// the counter that this channel sees (physical or virtual).
#[derive(Clone, Copy, Debug, PartialEq, Eq, Structural)]
pub struct TimerChannel {
    /// Only ENABLE and IMASK; ISTATUS is computed.
    pub ctl: u64,
    pub cval: u64,
}

/// The 32-bit value `v`, sign-extended to 64 bits (as an unsigned residue).
pub open spec fn sign_extend_32(v: int) -> int {
    if v < 0x8000_0000 { v } else { v + 0xFFFF_FFFF_0000_0000 }
}

impl Default for TimerChannel {
    fn default() -> (r: Self)
        ensures
            r == (TimerChannel { ctl: 0, cval: 0 }),
    {
        TimerChannel { ctl: 0, cval: 0 }
    }
}

impl TimerChannel {
    pub open spec fn fired(self, count: u64) -> bool {
        self.ctl & CTL_ENABLE != 0 && count >= self.cval
    }

    pub fn istatus(&self, count: u64) -> (r: bool)
        ensures
            r == self.fired(count),
    {
        self.ctl & CTL_ENABLE != 0 && count >= self.cval
    }

    pub open spec fn line(self, count: u64) -> bool {
        self.fired(count) && self.ctl & CTL_IMASK == 0
    }

    /// Level of the output towards the GIC.
    pub fn irq_level(&self, count: u64) -> (r: bool)
        ensures
            r == self.line(count),
    {
        self.istatus(count) && self.ctl & CTL_IMASK == 0
    }

    pub open spec fn ctl_read(self, count: u64) -> u64 {
        self.ctl | if self.fired(count) { CTL_ISTATUS } else { 0 }
    }

    pub fn read_ctl(&self, count: u64) -> (r: u64)
        ensures
            r == self.ctl_read(count),
    {
        self.ctl | if self.istatus(count) { CTL_ISTATUS } else { 0 }
    }

    /// ISTATUS is read-only.
    pub fn write_ctl(&mut self, value: u64)
        ensures
            *final(self) == (TimerChannel { ctl: value & (CTL_ENABLE | CTL_IMASK), ..*old(self) }),
    {
        self.ctl = value & (CTL_ENABLE | CTL_IMASK);
    }

    pub open spec fn tval_read(self, count: u64) -> int {
        (self.cval - count) % 0x1_0000_0000
    }

    pub fn read_tval(&self, count: u64) -> (r: u64)
        ensures
            r == self.tval_read(count),
    {
        let d: u64 = self.cval.wrapping_sub(count);
        d % 0x1_0000_0000
    }

    pub fn read_cval(&self) -> (r: u64)
        ensures
            r == self.cval,
    {
        self.cval
    }

    pub fn write_cval(&mut self, value: u64)
        ensures
            *final(self) == (TimerChannel { cval: value, ..*old(self) }),
    {
        self.cval = value;
    }

    /// CVAL after a write of `value` to TVAL at `count`.
    pub open spec fn tval_written(count: u64, value: u64) -> u64 {
        ((count + sign_extend_32(value as int % 0x1_0000_0000)) % 0x1_0000_0000_0000_0000) as u64
    }

    pub fn write_tval(&mut self, count: u64, value: u64)
        ensures
            *final(self) == (TimerChannel {
                cval: Self::tval_written(count, value),
                ..*old(self)
            }),
    {
        let low: u64 = value % 0x1_0000_0000;
        let ext: u64 = if low < 0x8000_0000 { low } else { low + 0xFFFF_FFFF_0000_0000 };
        self.cval = count.wrapping_add(ext);
    }

    pub open spec fn next_fire(self, count: u64) -> Option<u64> {
        if self.ctl & (CTL_ENABLE | CTL_IMASK) == CTL_ENABLE && count < self.cval {
            Some(self.cval)
        } else {
            None
        }
    }

    /// Value of the counter at which the line will rise, if it is enabled, not
    /// masked and has not fired yet: the engine can run until then without
    /// looking at the timer again.
    pub fn deadline(&self, count: u64) -> (r: Option<u64>)
        ensures
            r == self.next_fire(count),
    {
        if self.ctl & (CTL_ENABLE | CTL_IMASK) == CTL_ENABLE && count < self.cval {
            Some(self.cval)
        } else {
            None
        }
    }
}

/// Generic timer of one CPU: CNTFRQ, CNTVOFF and the two EL1 channels.
#[derive(Clone, Debug, PartialEq, Eq, Structural)]
pub struct GenericTimer {
    /// CNTFRQ_EL0 in Hz.
    pub cntfrq: u32,
    /// CNTVOFF_EL2 (zero without EL2).
    pub cntvoff: u64,
    /// CNTP_* (PPI 30).
    pub phys: TimerChannel,
    /// CNTV_* (PPI 27).
    pub virt: TimerChannel,
}

impl Default for GenericTimer {
    fn default() -> (r: Self)
        ensures
            r == GenericTimer::fresh(crate::platform::map::CNTFRQ_HZ),
    {
        GenericTimer::new(crate::platform::map::CNTFRQ_HZ)
    }
}

/// How far the counter is from `count`, when it stands at `from`: it wraps.
pub open spec fn ahead(from: u64, count: u64) -> int {
    (count - from) % 0x1_0000_0000_0000_0000
}

/// The one of two optional deadlines that a counter at `from` reaches first.
pub open spec fn sooner(from: u64, a: Option<u64>, b: Option<u64>) -> Option<u64> {
    match (a, b) {
        (Some(x), Some(y)) => Some(if ahead(from, x) <= ahead(from, y) { x } else { y }),
        (Some(x), None) => Some(x),
        (None, y) => y,
    }
}

impl GenericTimer {
    pub open spec fn fresh(cntfrq: u32) -> GenericTimer {
        GenericTimer {
            cntfrq,
            cntvoff: 0,
            phys: TimerChannel { ctl: 0, cval: 0 },
            virt: TimerChannel { ctl: 0, cval: 0 },
        }
    }

    pub fn new(cntfrq: u32) -> (r: Self)
        ensures
            r == Self::fresh(cntfrq),
    {
        GenericTimer {
            cntfrq,
            cntvoff: 0,
            phys: TimerChannel { ctl: 0, cval: 0 },
            virt: TimerChannel { ctl: 0, cval: 0 },
        }
    }

    /// The virtual counter: `CNTPCT - CNTVOFF`, modulo 2^64.
    pub open spec fn virt_count(self, cntpct: u64) -> u64 {
        ((cntpct - self.cntvoff) % 0x1_0000_0000_0000_0000) as u64
    }

    /// CNTVCT_EL0 for a given CNTPCT_EL0.
    pub fn cntvct(&self, cntpct: u64) -> (r: u64)
        ensures
            r == self.virt_count(cntpct),
    {
        cntpct.wrapping_sub(self.cntvoff)
    }

    // System registers, as MRS/MSR reach them.

    pub fn cntp_ctl(&self, cntpct: u64) -> (r: u64)
        ensures
            r == self.phys.ctl_read(cntpct),
    {
        self.phys.read_ctl(cntpct)
    }

    pub fn set_cntp_ctl(&mut self, value: u64)
        ensures
            *final(self) == (GenericTimer {
                phys: TimerChannel { ctl: value & (CTL_ENABLE | CTL_IMASK), ..old(self).phys },
                ..*old(self)
            }),
    {
        self.phys.write_ctl(value);
    }

    pub fn cntp_cval(&self) -> (r: u64)
        ensures
            r == self.phys.cval,
    {
        self.phys.read_cval()
    }

    pub fn set_cntp_cval(&mut self, value: u64)
        ensures
            *final(self) == (GenericTimer {
                phys: TimerChannel { cval: value, ..old(self).phys },
                ..*old(self)
            }),
    {
        self.phys.write_cval(value);
    }

    pub fn cntp_tval(&self, cntpct: u64) -> (r: u64)
        ensures
            r == self.phys.tval_read(cntpct),
    {
        self.phys.read_tval(cntpct)
    }

    pub fn set_cntp_tval(&mut self, cntpct: u64, value: u64)
        ensures
            *final(self) == (GenericTimer {
                phys: TimerChannel {
                    cval: TimerChannel::tval_written(cntpct, value),
                    ..old(self).phys
                },
                ..*old(self)
            }),
    {
        self.phys.write_tval(cntpct, value);
    }

    pub fn cntv_ctl(&self, cntpct: u64) -> (r: u64)
        ensures
            r == self.virt.ctl_read(self.virt_count(cntpct)),
    {
        self.virt.read_ctl(self.cntvct(cntpct))
    }

    pub fn set_cntv_ctl(&mut self, value: u64)
        ensures
            *final(self) == (GenericTimer {
                virt: TimerChannel { ctl: value & (CTL_ENABLE | CTL_IMASK), ..old(self).virt },
                ..*old(self)
            }),
    {
        self.virt.write_ctl(value);
    }

    pub fn cntv_cval(&self) -> (r: u64)
        ensures
            r == self.virt.cval,
    {
        self.virt.read_cval()
    }

    pub fn set_cntv_cval(&mut self, value: u64)
        ensures
            *final(self) == (GenericTimer {
                virt: TimerChannel { cval: value, ..old(self).virt },
                ..*old(self)
            }),
    {
        self.virt.write_cval(value);
    }

    pub fn cntv_tval(&self, cntpct: u64) -> (r: u64)
        ensures
            r == self.virt.tval_read(self.virt_count(cntpct)),
    {
        self.virt.read_tval(self.cntvct(cntpct))
    }

    pub fn set_cntv_tval(&mut self, cntpct: u64, value: u64)
        ensures
            *final(self) == (GenericTimer {
                virt: TimerChannel {
                    cval: TimerChannel::tval_written(old(self).virt_count(cntpct), value),
                    ..old(self).virt
                },
                ..*old(self)
            }),
    {
        let count: u64 = self.cntvct(cntpct);
        self.virt.write_tval(count, value);
    }

    pub open spec fn virt_line(self, cntpct: u64) -> bool {
        self.virt.line(self.virt_count(cntpct))
    }

    pub open spec fn phys_line(self, cntpct: u64) -> bool {
        self.phys.line(cntpct)
    }

    /// Lines towards the GIC as pairs (INTID of the PPI, level).
    pub fn irq_lines(&self, cntpct: u64) -> (r: [(u32, bool); 2])
        ensures
            r@ == seq![
                (crate::platform::map::PPI_VTIMER, self.virt_line(cntpct)),
                (crate::platform::map::PPI_PTIMER, self.phys_line(cntpct)),
            ],
    {
        [
            (crate::platform::map::PPI_VTIMER, self.virt.irq_level(self.cntvct(cntpct))),
            (crate::platform::map::PPI_PTIMER, self.phys.irq_level(cntpct)),
        ]
    }

    /// When the virtual channel's line rises, as a value of CNTPCT.
    pub open spec fn virt_deadline(self, cntpct: u64) -> Option<u64> {
        match self.virt.next_fire(self.virt_count(cntpct)) {
            Some(c) => Some(((c + self.cntvoff) % 0x1_0000_0000_0000_0000) as u64),
            None => None,
        }
    }

    /// The deadline that CNTPCT reaches first.
    pub open spec fn first_deadline(self, cntpct: u64) -> Option<u64> {
        sooner(cntpct, self.virt_deadline(cntpct), self.phys.next_fire(cntpct))
    }

    /// Next value of CNTPCT at which one of the two lines will rise.
    pub fn next_deadline(&self, cntpct: u64) -> (r: Option<u64>)
        ensures
            r == self.first_deadline(cntpct),
    {
        let v: Option<u64> = match self.virt.deadline(self.cntvct(cntpct)) {
            Some(c) => Some(c.wrapping_add(self.cntvoff)),
            None => None,
        };
        let p: Option<u64> = self.phys.deadline(cntpct);
        match (v, p) {
            (Some(a), Some(b)) => {
                if a.wrapping_sub(cntpct) <= b.wrapping_sub(cntpct) {
                    Some(a)
                } else {
                    Some(b)
                }
            },
            (Some(a), None) => Some(a),
            (None, b) => b,
        }
    }
}

/// TVAL reads back the low 32 bits of what was written to it, at the same
/// value of the counter.
pub proof fn law_tval_round_trip(c: TimerChannel, count: u64, value: u64)
    ensures
        (TimerChannel { cval: TimerChannel::tval_written(count, value), ..c }).tval_read(count)
            == value % 0x1_0000_0000,
{
}

/// The line of a channel is low at every count before its deadline, and high at
/// the deadline and at every later count that does not wrap.
pub proof fn law_line_rises_at_deadline(c: TimerChannel, count: u64, later: u64)
    requires
        c.next_fire(count) is Some,
    ensures
        count < c.next_fire(count)->0,
        !c.line(count),
        later < c.next_fire(count)->0 ==> !c.line(later),
        later >= c.next_fire(count)->0 ==> c.line(later),
{
    let ctl = c.ctl;
    assert(ctl & (1u64 | 2u64) == 1u64 ==> ctl & 1 != 0 && ctl & 2 == 0) by (bit_vector);
}

/// The virtual counter, and the way to its deadline, when CNTPCT has run `step`
/// further.
proof fn lemma_virtual_run(t: GenericTimer, cntpct: u64, c: u64, step: int)
    requires
        t.virt_count(cntpct) < c,
        0 <= step < c - t.virt_count(cntpct),
    ensures
        ({
            let d = ((c + t.cntvoff) % 0x1_0000_0000_0000_0000) as u64;
            let now = ((cntpct + step) % 0x1_0000_0000_0000_0000) as u64;
            &&& ahead(cntpct, d) == c - t.virt_count(cntpct)
            &&& t.virt_count(d) == c
            &&& t.virt_count(now) == t.virt_count(cntpct) + step
        }),
{
    let v = t.virt_count(cntpct);
    assert(v == cntpct - t.cntvoff || v == cntpct - t.cntvoff + 0x1_0000_0000_0000_0000);
    let d = ((c + t.cntvoff) % 0x1_0000_0000_0000_0000) as u64;
    assert(d == c + t.cntvoff || d == c + t.cntvoff - 0x1_0000_0000_0000_0000);
    let now = ((cntpct + step) % 0x1_0000_0000_0000_0000) as u64;
    assert(now == cntpct + step || now == cntpct + step - 0x1_0000_0000_0000_0000);
}

/// While CNTPCT runs from `cntpct` to the next deadline, by fewer than all `step`s
/// of the way, neither line that waits for its deadline rises; at the deadline one
/// of the two is high. CNTPCT may wrap on the way.
pub proof fn law_no_line_rises_before_the_deadline(t: GenericTimer, cntpct: u64, step: int)
    requires
        t.first_deadline(cntpct) is Some,
        0 <= step < ahead(cntpct, t.first_deadline(cntpct)->0),
    ensures
        ({
            let now = ((cntpct + step) % 0x1_0000_0000_0000_0000) as u64;
            let d = t.first_deadline(cntpct)->0;
            &&& t.virt_deadline(cntpct) is Some ==> !t.virt_line(now)
            &&& t.phys.next_fire(cntpct) is Some ==> !t.phys_line(now)
            &&& t.virt_line(d) || t.phys_line(d)
        }),
{
    let now = ((cntpct + step) % 0x1_0000_0000_0000_0000) as u64;
    let d = t.first_deadline(cntpct)->0;
    let v = t.virt_count(cntpct);
    if t.virt_deadline(cntpct) is Some {
        let c = t.virt.next_fire(v)->0;
        lemma_virtual_run(t, cntpct, c, 0);
        lemma_virtual_run(t, cntpct, c, step);
        law_line_rises_at_deadline(t.virt, v, t.virt_count(now));
        law_line_rises_at_deadline(t.virt, v, c);
    }
    if t.phys.next_fire(cntpct) is Some {
        let c = t.phys.next_fire(cntpct)->0;
        assert(ahead(cntpct, c) == c - cntpct);
        law_line_rises_at_deadline(t.phys, cntpct, now);
        law_line_rises_at_deadline(t.phys, cntpct, c);
    }
}

/// A masked or disabled channel never raises its line.
pub proof fn law_masked_line_is_low(c: TimerChannel, count: u64)
    requires
        c.ctl & CTL_ENABLE == 0 || c.ctl & CTL_IMASK != 0,
    ensures
        !c.line(count),
        c.next_fire(count) is None,
{
    let ctl = c.ctl;
    assert(ctl & 1 == 0 || ctl & 2 != 0 ==> ctl & (1u64 | 2u64) != 1u64) by (bit_vector);
}

} // verus!
