//! What the registers of the interrupt controller do, and what is delivered.
use vstd::prelude::*;
use crate::platform::gic::{law_bitmap_read, law_delivered_is_eligible, lemma_top_is_unique, BitOp, GicState, Irq, GICD_CTLR_ENABLE_GRP1, GICD_ICACTIVER, GICD_ICENABLER, GICD_ICPENDR, GICD_IGROUPR, GICD_ISACTIVER, GICD_ISENABLER, GICD_ISPENDR, GICR_OFFSET, GICR_SGI_BASE, NUM_INTIDS};

verus! {

/// Where the bitmap register for the interrupts `32 * n` to `32 * n + 31` stands:
/// that of the SGIs and PPIs in the redistributor, the others in the distributor.
pub open spec fn register_at(base: u64, n: int) -> u64 {
    if n == 0 {
        (GICR_OFFSET + GICR_SGI_BASE + base) as u64
    } else {
        (base + 4 * n) as u64
    }
}

/// Bit of the interrupt `i` in a word that is written to its bitmap register.
pub open spec fn selected(v: u32, n: int, i: int) -> bool {
    32 * n <= i < 32 * n + 32 && v & (1u32 << (i - 32 * n) as u32) != 0
}

/// Everything but the interrupts is the same.
pub open spec fn same_but_irqs(s: GicState, t: GicState) -> bool {
    t == GicState { irqs: t.irqs, ..s }
}

proof fn lemma_bitmap_written(s: GicState, base: u64, n: int, v: u32, op: BitOp)
    requires
        s.wf(),
        0 <= n < 9,
        base == GICD_IGROUPR && op == BitOp::Group || base == GICD_ISENABLER && op
            == BitOp::SetEnable || base == GICD_ICENABLER && op == BitOp::ClearEnable || base
            == GICD_ISPENDR && op == BitOp::SetPending || base == GICD_ICPENDR && op
            == BitOp::ClearPending || base == GICD_ISACTIVER && op == BitOp::SetActive || base
            == GICD_ICACTIVER && op == BitOp::ClearActive,
    ensures
        s.mmio_written(register_at(base, n), 4, v as u64) == s.bits_written(n, op, v),
        s.mmio_value(register_at(base, n), 4) == s.bits(n, op) as u64,
{
    let off = register_at(base, n);
    if n == 0 {
        assert(off - GICR_OFFSET - GICR_SGI_BASE == base);
    } else {
        assert(off as int % 0x80 == 4 * n);
        assert(off % 0x80 == 4 * n);
        assert(off - off % 0x80 == base);
    }
}

/// What a 32-bit write of `v` to each bitmap register does: the set registers set
/// what their name says for each interrupt whose bit is one, the clear registers
/// clear it, the group register takes every bit as it is, and nothing else changes,
/// neither of these interrupts nor of the others. SGIs and PPIs have theirs in the
/// redistributor, SPIs in the distributor.
pub proof fn law_set_and_clear_registers(s: GicState, n: int, v: u32)
    requires
        s.wf(),
        0 <= n < 9,
    ensures
        ({
            let enabled = s.mmio_written(register_at(0x100, n), 4, v as u64);
            let disabled = s.mmio_written(register_at(0x180, n), 4, v as u64);
            let pended = s.mmio_written(register_at(0x200, n), 4, v as u64);
            let unpended = s.mmio_written(register_at(0x280, n), 4, v as u64);
            let activated = s.mmio_written(register_at(0x300, n), 4, v as u64);
            let deactivated = s.mmio_written(register_at(0x380, n), 4, v as u64);
            let grouped = s.mmio_written(register_at(0x80, n), 4, v as u64);
            &&& same_but_irqs(s, enabled) && same_but_irqs(s, disabled) && same_but_irqs(s, pended)
            &&& same_but_irqs(s, unpended) && same_but_irqs(s, activated)
            &&& same_but_irqs(s, deactivated) && same_but_irqs(s, grouped)
            &&& enabled.wf() && disabled.wf() && pended.wf() && unpended.wf()
            &&& activated.wf() && deactivated.wf() && grouped.wf()
            &&& forall|i: int|
                0 <= i < NUM_INTIDS ==> {
                    let b = selected(v, n, i);
                    let was = #[trigger] s.irqs[i];
                    &&& enabled.irqs[i] == if b { Irq { enabled: true, ..was } } else { was }
                    &&& disabled.irqs[i] == if b { Irq { enabled: false, ..was } } else { was }
                    &&& pended.irqs[i] == if b { Irq { pending: true, ..was } } else { was }
                    &&& unpended.irqs[i] == if b { Irq { pending: false, ..was } } else { was }
                    &&& activated.irqs[i] == if b { Irq { active: true, ..was } } else { was }
                    &&& deactivated.irqs[i] == if b { Irq { active: false, ..was } } else { was }
                    &&& grouped.irqs[i] == if 32 * n <= i < 32 * n + 32 {
                        Irq { group1: b, ..was }
                    } else {
                        was
                    }
                }
        }),
{
    lemma_bitmap_written(s, 0x80, n, v, BitOp::Group);
    lemma_bitmap_written(s, 0x100, n, v, BitOp::SetEnable);
    lemma_bitmap_written(s, 0x180, n, v, BitOp::ClearEnable);
    lemma_bitmap_written(s, 0x200, n, v, BitOp::SetPending);
    lemma_bitmap_written(s, 0x280, n, v, BitOp::ClearPending);
    lemma_bitmap_written(s, 0x300, n, v, BitOp::SetActive);
    lemma_bitmap_written(s, 0x380, n, v, BitOp::ClearActive);
}

/// A read of a bitmap register shows the interrupts of its word, bit by bit: the
/// set and the clear register the same. A level-triggered interrupt pends as long
/// as its line is high.
pub proof fn law_bitmap_registers_read(s: GicState, n: int, b: u32)
    requires
        s.wf(),
        0 <= n < 9,
        b < 32,
    ensures
        ({
            let irq = s.irqs[32 * n + b];
            let pends = irq.pending || (irq.level && !irq.edge);
            let m = 1u32 << b;
            &&& (s.mmio_value(register_at(0x80, n), 4) as u32 & m != 0) == irq.group1
            &&& (s.mmio_value(register_at(0x100, n), 4) as u32 & m != 0) == irq.enabled
            &&& (s.mmio_value(register_at(0x180, n), 4) as u32 & m != 0) == irq.enabled
            &&& (s.mmio_value(register_at(0x200, n), 4) as u32 & m != 0) == pends
            &&& (s.mmio_value(register_at(0x280, n), 4) as u32 & m != 0) == pends
            &&& (s.mmio_value(register_at(0x300, n), 4) as u32 & m != 0) == irq.active
            &&& (s.mmio_value(register_at(0x380, n), 4) as u32 & m != 0) == irq.active
        }),
{
    lemma_bitmap_written(s, 0x80, n, 0, BitOp::Group);
    lemma_bitmap_written(s, 0x100, n, 0, BitOp::SetEnable);
    lemma_bitmap_written(s, 0x180, n, 0, BitOp::ClearEnable);
    lemma_bitmap_written(s, 0x200, n, 0, BitOp::SetPending);
    lemma_bitmap_written(s, 0x280, n, 0, BitOp::ClearPending);
    lemma_bitmap_written(s, 0x300, n, 0, BitOp::SetActive);
    lemma_bitmap_written(s, 0x380, n, 0, BitOp::ClearActive);
    law_bitmap_read(s, n, BitOp::Group, b);
    law_bitmap_read(s, n, BitOp::SetEnable, b);
    law_bitmap_read(s, n, BitOp::ClearEnable, b);
    law_bitmap_read(s, n, BitOp::SetPending, b);
    law_bitmap_read(s, n, BitOp::ClearPending, b);
    law_bitmap_read(s, n, BitOp::SetActive, b);
    law_bitmap_read(s, n, BitOp::ClearActive, b);
}

/// The interrupt waits for the CPU: enabled, pending or with its level high, not
/// active, in group 1, and (an SPI) routed to the only CPU or to any.
pub open spec fn waits(s: GicState, i: int) -> bool {
    let irq = s.irqs[i];
    &&& 0 <= i < NUM_INTIDS
    &&& irq.enabled && !irq.active && irq.group1
    &&& irq.pending || (irq.level && !irq.edge)
    &&& i < 32 || irq.router & 0x8000_0000 != 0 || irq.router & 0xFF_00FF_FFFF == 0
}

/// Which interrupt is delivered: the one that waits with the most urgent (lowest)
/// priority, and of several the first, if both enables of group 1 are on, the mask
/// lets it through and it is more urgent than what runs. If none waits, or an
/// enable is off, or the most urgent does not get through, none is.
pub proof fn law_most_urgent_is_delivered(s: GicState, i: int)
    requires
        s.wf(),
    ensures
        ({
            let p = s.irqs[i].priority;
            let most_urgent = waits(s, i) && forall|j: int| #[trigger]
                waits(s, j) ==> p < s.irqs[j].priority || (p == s.irqs[j].priority && i <= j);
            let on = s.gicd_ctlr & GICD_CTLR_ENABLE_GRP1 != 0 && s.igrpen1;
            let through = p < s.pmr && (s.active_prio.len() == 0 || p & (0xFFu8 << s.bpr1)
                < s.active_prio.last().1);
            &&& most_urgent && on && through ==> s.deliverable() == Some((i as u32, p))
            &&& most_urgent && !(on && through) ==> s.deliverable() is None
            &&& (forall|j: int| !#[trigger] waits(s, j)) ==> s.deliverable() is None
            &&& !on ==> s.deliverable() is None
        }),
{
    assert forall|j: int| waits(s, j) == #[trigger] s.candidate(j) by {}
    if exists|j: int| s.is_top(j) {
        let t = choose|j: int| s.is_top(j);
        assert(s.candidate(t));
        assert(waits(s, t));
        let p = s.irqs[i].priority;
        if waits(s, i) && forall|j: int| #[trigger]
            waits(s, j) ==> p < s.irqs[j].priority || (p == s.irqs[j].priority && i <= j) {
            assert(s.is_top(i)) by {
                assert(s.candidate(i));
                assert forall|j: int| #[trigger] s.candidate(j) implies s.irqs[i].priority
                    < s.irqs[j].priority || (s.irqs[i].priority == s.irqs[j].priority && i <= j) by {
                    assert(waits(s, j));
                }
            }
            lemma_top_is_unique(s, i, t);
            assert(p & (0xFFu8 << s.bpr1) < 0x100);
        }
    } else {
        let p = s.irqs[i].priority;
        if waits(s, i) && forall|j: int| #[trigger]
            waits(s, j) ==> p < s.irqs[j].priority || (p == s.irqs[j].priority && i <= j) {
            assert(s.is_top(i)) by {
                assert(s.candidate(i));
                assert forall|j: int| #[trigger] s.candidate(j) implies s.irqs[i].priority
                    < s.irqs[j].priority || (s.irqs[i].priority == s.irqs[j].priority && i <= j) by {
                    assert(waits(s, j));
                }
            }
        }
    }
}

/// An interrupt that is masked through its clear-enable register is not delivered,
/// whichever it is, and its enable bit reads zero from both registers; one whose
/// latch is cleared and whose line is low is not delivered either, nor one in
/// group 0.
pub proof fn law_masked_interrupt_is_silent(s: GicState, i: int, v: u32)
    requires
        s.wf(),
        0 <= i < NUM_INTIDS,
        v & (1u32 << (i % 32) as u32) != 0,
    ensures
        ({
            let n = i / 32;
            let m = 1u32 << (i % 32) as u32;
            let masked = s.mmio_written(register_at(0x180, n), 4, v as u64);
            let cleared = s.mmio_written(register_at(0x280, n), 4, v as u64);
            let grouped = s.mmio_written(register_at(0x80, n), 4, !v as u64);
            &&& masked.deliverable() matches Some((id, _)) ==> id != i
            &&& masked.mmio_value(register_at(0x100, n), 4) as u32 & m == 0
            &&& masked.mmio_value(register_at(0x180, n), 4) as u32 & m == 0
            &&& !s.irqs[i].level ==> (cleared.deliverable() matches Some((id, _)) ==> id != i)
            &&& grouped.deliverable() matches Some((id, _)) ==> id != i
        }),
{
    let n = i / 32;
    let b = (i % 32) as u32;
    law_set_and_clear_registers(s, n, v);
    law_set_and_clear_registers(s, n, !v);
    assert(v & (1u32 << b) != 0 ==> !v & (1u32 << b) == 0) by (bit_vector);
    assert(i == 32 * n + b && selected(v, n, i) && !selected(!v, n, i));
    let masked = s.mmio_written(register_at(0x180, n), 4, v as u64);
    let cleared = s.mmio_written(register_at(0x280, n), 4, v as u64);
    let grouped = s.mmio_written(register_at(0x80, n), 4, !v as u64);
    law_bitmap_registers_read(masked, n, b);
    assert(s.irqs[i] == s.irqs[i]);
    assert(!masked.candidate(i) && !grouped.candidate(i));
    if masked.deliverable() is Some {
        law_delivered_is_eligible(masked);
    }
    if cleared.deliverable() is Some {
        law_delivered_is_eligible(cleared);
    }
    if grouped.deliverable() is Some {
        law_delivered_is_eligible(grouped);
    }
}

/// The lines. A level-triggered interrupt follows its line; an edge-triggered one
/// is latched when its line rises, and stays so when it falls. SGIs have no line.
pub proof fn law_lines(s: GicState, i: u32, level: bool)
    requires
        s.wf(),
    ensures
        ({
            let t = s.level_set(i, level);
            let was = s.irqs[i as int];
            &&& same_but_irqs(s, t) && t.irqs.len() == s.irqs.len()
            &&& forall|j: int| 0 <= j < NUM_INTIDS && j != i ==> #[trigger] t.irqs[j] == s.irqs[j]
            &&& i < 16 || i >= NUM_INTIDS ==> t == s
            &&& 16 <= i < NUM_INTIDS ==> t.irqs[i as int] == (Irq {
                level,
                pending: was.pending || (was.edge && !was.level && level),
                ..was
            })
        }),
{
}

/// A software interrupt pends until it is acknowledged; through ICC_SGI1R only one
/// to affinity 0.0.0, with this CPU in the target list, and not to all others.
pub proof fn law_software_interrupts(s: GicState, i: u32, value: u64)
    requires
        s.wf(),
    ensures
        i < 16 ==> s.sgi_sent(i).irqs[i as int] == (Irq { pending: true, ..s.irqs[i as int] }),
        i < 16 ==> forall|j: int|
            0 <= j < NUM_INTIDS && j != i ==> #[trigger] s.sgi_sent(i).irqs[j] == s.irqs[j],
        same_but_irqs(s, s.sgi_sent(i)),
        i >= 16 ==> s.sgi_sent(i) == s,
        ({
            let here = value & 0x1 != 0 && value & 0x00FF_00FF_00FF_0000 == 0 && value
                & 0x100_0000_0000 == 0;
            s.sgi1r_written(value) == if here {
                s.sgi_sent(((value >> 24) % 16) as u32)
            } else {
                s
            }
        }),
{
    assert((value & 0xFFFF) & 1 == value & 1) by (bit_vector);
    assert((value >> 24) & 0xF == (value >> 24) % 16) by (bit_vector);
}

/// A priority is a byte of its register, for one, two or four interrupts at a
/// time; nothing else changes, and the byte reads back.
pub proof fn law_priority_registers(s: GicState, i: int, v: u8)
    requires
        s.wf(),
        0 <= i < NUM_INTIDS,
    ensures
        ({
            let at = if i < 32 {
                (GICR_OFFSET + GICR_SGI_BASE + 0x400 + i) as u64
            } else {
                (0x400 + i) as u64
            };
            let t = s.mmio_written(at, 1, v as u64);
            &&& same_but_irqs(s, t) && t.irqs.len() == s.irqs.len()
            &&& t.irqs[i] == (Irq { priority: v, ..s.irqs[i] })
            &&& forall|j: int| 0 <= j < NUM_INTIDS && j != i ==> #[trigger] t.irqs[j] == s.irqs[j]
            &&& t.mmio_value(at, 1) == v
            &&& s.mmio_value(at, 1) == s.irqs[i].priority
        }),
{
    assert(((v as u64) >> 0u64) as u8 == v) by (bit_vector);
}

/// Four priorities written together: byte `k` of the word is that of the
/// interrupt `i + k`, and the word reads back.
pub proof fn law_priority_words(s: GicState, i: int, v: u32)
    requires
        s.wf(),
        0 <= i && i + 4 <= NUM_INTIDS,
        i % 4 == 0,
    ensures
        ({
            let at = if i < 32 {
                (GICR_OFFSET + GICR_SGI_BASE + 0x400 + i) as u64
            } else {
                (0x400 + i) as u64
            };
            let t = s.mmio_written(at, 4, v as u64);
            &&& same_but_irqs(s, t) && t.irqs.len() == s.irqs.len()
            &&& t.irqs[i] == (Irq { priority: (v % 0x100) as u8, ..s.irqs[i] })
            &&& t.irqs[i + 1] == (Irq { priority: (v / 0x100 % 0x100) as u8, ..s.irqs[i + 1] })
            &&& t.irqs[i + 2] == (Irq { priority: (v / 0x1_0000 % 0x100) as u8, ..s.irqs[i + 2] })
            &&& t.irqs[i + 3] == (Irq { priority: (v / 0x100_0000) as u8, ..s.irqs[i + 3] })
            &&& forall|j: int|
                0 <= j < NUM_INTIDS && !(i <= j < i + 4) ==> #[trigger] t.irqs[j] == s.irqs[j]
            &&& t.mmio_value(at, 4) == v
        }),
{
    let w = v as u64;
    assert((w >> 0u64) as u8 == (v % 0x100) as u8) by (bit_vector)
        requires
            w == v as u64,
    ;
    assert((w >> 8u64) as u8 == (v / 0x100 % 0x100) as u8) by (bit_vector)
        requires
            w == v as u64,
    ;
    assert((w >> 16u64) as u8 == (v / 0x1_0000 % 0x100) as u8) by (bit_vector)
        requires
            w == v as u64,
    ;
    assert((w >> 24u64) as u8 == (v / 0x100_0000) as u8) by (bit_vector)
        requires
            w == v as u64,
    ;
    let (a, b, c, d) = (v % 0x100, v / 0x100 % 0x100, v / 0x1_0000 % 0x100, v / 0x100_0000);
    assert(v == a + b * 0x100 + c * 0x1_0000 + d * 0x100_0000);
}

/// The configuration registers say which interrupts are edge triggered, sixteen
/// for each word, in the upper of the two bits of each. SGIs stay edge triggered,
/// whatever is written.
pub proof fn law_configuration_registers(s: GicState, n: int, v: u32)
    requires
        s.wf(),
        1 <= n < 18,
    ensures
        ({
            let at = if n == 1 {
                (GICR_OFFSET + GICR_SGI_BASE + 0xC04) as u64
            } else {
                (0xC00 + 4 * n) as u64
            };
            let t = s.mmio_written(at, 4, v as u64);
            &&& same_but_irqs(s, t) && t.irqs.len() == s.irqs.len()
            &&& forall|i: int|
                0 <= i < NUM_INTIDS ==> #[trigger] t.irqs[i] == if 16 * n <= i < 16 * n + 16 {
                    Irq {
                        edge: v & (1u32 << (2 * (i - 16 * n) + 1) as u32) != 0,
                        ..s.irqs[i]
                    }
                } else {
                    s.irqs[i]
                }
            &&& s.mmio_written((GICR_OFFSET + GICR_SGI_BASE + 0xC00) as u64, 4, v as u64) == s
            &&& s.mmio_written(0xC00, 4, v as u64) == s
            &&& s.mmio_written(0xC04, 4, v as u64) == s
        }),
{
}

/// The route of an SPI: a 64-bit write keeps the affinities and the "any CPU" bit,
/// and reads back; nothing else changes.
pub proof fn law_router_registers(s: GicState, i: int, value: u64)
    requires
        s.wf(),
        32 <= i < NUM_INTIDS,
    ensures
        ({
            let at = (0x6000 + 8 * i) as u64;
            let t = s.mmio_written(at, 8, value);
            &&& same_but_irqs(s, t) && t.irqs.len() == s.irqs.len()
            &&& t.irqs[i] == (Irq { router: value & 0xFF_80FF_FFFF, ..s.irqs[i] })
            &&& forall|j: int| 0 <= j < NUM_INTIDS && j != i ==> #[trigger] t.irqs[j] == s.irqs[j]
            &&& t.mmio_value(at, 8) == value & 0xFF_80FF_FFFF
        }),
{
}

/// The enables of the groups, and the sleep of the processor: what is written
/// reads back, with the fixed bits, and nothing else changes.
pub proof fn law_control_registers(s: GicState, v: u32)
    requires
        s.wf(),
    ensures
        ({
            let t = s.mmio_written(0, 4, v as u64);
            let waker = (GICR_OFFSET + 0x14) as u64;
            let u = s.mmio_written(waker, 4, v as u64);
            &&& t == (GicState { gicd_ctlr: v & 3, ..s })
            &&& t.mmio_value(0, 4) == ((v & 3) | 0x50) as u64
            &&& u == (GicState { processor_sleep: v & 2 != 0, ..s })
            &&& u.mmio_value(waker, 4) == if v & 2 != 0 { 6u64 } else { 0 }
        }),
{
    assert(0x01u32 | 0x02u32 == 3) by (bit_vector);
    assert(0x2u32 | 0x4u32 == 6) by (bit_vector);
    assert(((v & 3) | 0x10) | 0x40 == (v & 3) | 0x50) by (bit_vector);
}

/// Acknowledging takes the interrupt that is delivered: it is active and no longer
/// latched, and its group priority runs; without one nothing changes.
pub proof fn law_acknowledge_activates(s: GicState)
    requires
        s.wf(),
    ensures
        s.deliverable() is None ==> s.acknowledged() == s,
        s.deliverable() matches Some((id, p)) ==> {
            let t = s.acknowledged();
            let i = id as int;
            &&& 0 <= i < NUM_INTIDS && t.irqs.len() == s.irqs.len()
            &&& t.irqs[i] == (Irq { active: true, pending: false, ..s.irqs[i] })
            &&& forall|j: int| 0 <= j < NUM_INTIDS && j != i ==> #[trigger] t.irqs[j] == s.irqs[j]
            &&& t.active_prio == s.active_prio.push((id, p & (0xFFu8 << s.bpr1)))
            &&& t.gicd_ctlr == s.gicd_ctlr && t.pmr == s.pmr && t.igrpen1 == s.igrpen1
        },
{
    if s.deliverable() is Some {
        law_delivered_is_eligible(s);
    }
}

/// Ending an interrupt: the most urgent running priority is dropped, and with
/// EOImode 0 the interrupt is no longer active, so that it can be delivered again;
/// with EOImode 1 it stays active until it is deactivated on its own. The special
/// INTIDs end nothing.
pub proof fn law_end_of_interrupt(s: GicState, i: u32)
    requires
        s.wf(),
    ensures
        ({
            let t = s.ended(i as u64);
            let special = 1020 <= i < 1024;
            let j = i as int;
            &&& special ==> t == s
            &&& !special && i < 0x100_0000 ==> {
                &&& t.active_prio == if s.active_prio.len() > 0 {
                    s.active_prio.drop_last()
                } else {
                    s.active_prio
                }
                &&& i < NUM_INTIDS && !s.eoimode ==> t.irqs == s.irqs.update(
                    j,
                    Irq { active: false, ..s.irqs[j] },
                )
                &&& i >= NUM_INTIDS || s.eoimode ==> t.irqs == s.irqs
                &&& t.pmr == s.pmr && t.gicd_ctlr == s.gicd_ctlr && t.igrpen1 == s.igrpen1
            }
            &&& i < NUM_INTIDS ==> s.deactivated(i) == (GicState {
                irqs: s.irqs.update(j, Irq { active: false, ..s.irqs[j] }),
                ..s
            })
        }),
{
}

} // verus!
