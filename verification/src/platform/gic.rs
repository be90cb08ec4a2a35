//! GICv3 for one CPU: distributor, redistributor and system-register CPU
//! interface.
//!
//! - One security state (GICD_CTLR.DS = 1, RAO/WI) and affinity routing always
//!   on (ARE = 1, RAO/WI).
//! - Only non-secure group 1: IGROUPR is stored, but interrupts left in group 0
//!   are never signalled. IGRPMODR and NSACR are RAZ/WI.
//! - No LPI/ITS: GICR_CTLR.EnableLPIs, PROPBASER and PENDBASER are RAZ/WI.
//! - 256 SPIs (INTID 32..287), GICD_TYPER.ITLinesNumber = 8, IDbits = 9.
//! - CPU interface with 5 priority bits: PMR keeps the 5 high bits, BPR1 is at
//!   least 3. ICC_CTLR_EL1.CBPR is RAZ/WI, EOImode is writable.
//! - GICR_WAKER does the handshake (ChildrenAsleep follows ProcessorSleep) but
//!   does not block delivery.
//!
//! On the bus the GIC is one region that starts at GICD_BASE and covers the
//! redistributor (see [`MMIO_SIZE`]); the space between them is RAZ/WI.
use vstd::prelude::*;
use crate::platform::bus::MmioDevice;

verus! {

/// Number of SPIs.
pub const NUM_SPIS: usize = 256;
/// Number of INTIDs (SGI + PPI + SPI).
pub const NUM_INTIDS: usize = 288;
/// INTID that IAR returns when there is nothing to deliver.
pub const INTID_SPURIOUS: u32 = 1023;
/// Priority bits of the CPU interface.
pub const PRI_BITS: u32 = 5;
/// Mask of the priority bits.
pub const PRI_MASK: u8 = 0xF8;
/// Smallest value of ICC_BPR1_EL1 (8 - PRI_BITS).
pub const MIN_BPR1: u8 = 3;

/// Size of the GIC's MMIO region on the bus (GICD + hole + one GICR).
pub const MMIO_SIZE: u64 = 0xC_0000;
/// Offset of the redistributor inside the region.
pub const GICR_OFFSET: u64 = 0xA_0000;

// Distributor.
pub const GICD_CTLR: u64 = 0x0000;
pub const GICD_TYPER: u64 = 0x0004;
pub const GICD_IIDR: u64 = 0x0008;
pub const GICD_TYPER2: u64 = 0x000C;
pub const GICD_IGROUPR: u64 = 0x0080;
pub const GICD_ISENABLER: u64 = 0x0100;
pub const GICD_ICENABLER: u64 = 0x0180;
pub const GICD_ISPENDR: u64 = 0x0200;
pub const GICD_ICPENDR: u64 = 0x0280;
pub const GICD_ISACTIVER: u64 = 0x0300;
pub const GICD_ICACTIVER: u64 = 0x0380;
pub const GICD_IPRIORITYR: u64 = 0x0400;
pub const GICD_ICFGR: u64 = 0x0C00;
pub const GICD_IGRPMODR: u64 = 0x0D00;
pub const GICD_IROUTER: u64 = 0x6000;
pub const GICD_PIDR2: u64 = 0xFFE8;

pub const GICD_CTLR_ENABLE_GRP0: u32 = 0x01;
pub const GICD_CTLR_ENABLE_GRP1: u32 = 0x02;
pub const GICD_CTLR_ARE: u32 = 0x10;
pub const GICD_CTLR_DS: u32 = 0x40;

// Redistributor, RD_base frame.
pub const GICR_CTLR: u64 = 0x0000;
pub const GICR_IIDR: u64 = 0x0004;
pub const GICR_TYPER: u64 = 0x0008;
pub const GICR_WAKER: u64 = 0x0014;
pub const GICR_PIDR2: u64 = 0xFFE8;
pub const GICR_WAKER_PROCESSOR_SLEEP: u32 = 0x2;
pub const GICR_WAKER_CHILDREN_ASLEEP: u32 = 0x4;
// Redistributor, SGI_base frame (offsets relative to the frame).
pub const GICR_SGI_BASE: u64 = 0x1_0000;
pub const GICR_IGROUPR0: u64 = 0x0080;
pub const GICR_ISENABLER0: u64 = 0x0100;
pub const GICR_ICENABLER0: u64 = 0x0180;
pub const GICR_ISPENDR0: u64 = 0x0200;
pub const GICR_ICPENDR0: u64 = 0x0280;
pub const GICR_ISACTIVER0: u64 = 0x0300;
pub const GICR_ICACTIVER0: u64 = 0x0380;
pub const GICR_IPRIORITYR: u64 = 0x0400;
pub const GICR_ICFGR0: u64 = 0x0C00;
pub const GICR_ICFGR1: u64 = 0x0C04;

/// Implementer: ARM (JEP106 0x43B).
pub const IIDR: u32 = 0x43B;

/// ICC_CTLR_EL1: writable bit and fixed fields.
pub const ICC_CTLR_EOIMODE: u64 = 0x2;
pub const ICC_CTLR_PRIBITS: u64 = 0x400;
pub const ICC_CTLR_A3V: u64 = 0x8000;

/// PIDR4-7, PIDR0-3, CIDR0-3 from 0xFFD0; `pidr0` tells the distributor (0x92)
/// from the redistributor (0x93).
pub open spec fn id_byte(pidr0: u32, i: int) -> u32 {
    seq![0x44u32, 0x00, 0x00, 0x00, pidr0, 0xB4, 0x3B, 0x00, 0x0D, 0xF0, 0x05, 0xB1][i]
}

fn read_id(pidr0: u32, i: u64) -> (r: u32)
    requires
        i < 12,
    ensures
        r == id_byte(pidr0, i as int),
{
    match i {
        0 => 0x44,
        1 => 0x00,
        2 => 0x00,
        3 => 0x00,
        4 => pidr0,
        5 => 0xB4,
        6 => 0x3B,
        7 => 0x00,
        8 => 0x0D,
        9 => 0xF0,
        10 => 0x05,
        _ => 0xB1,
    }
}

/// State of one interrupt.
#[derive(Clone, Copy, Debug, PartialEq, Eq, Structural)]
pub struct Irq {
    pub enabled: bool,
    /// Pending latch (edge, ISPENDR); for levels the line adds to it.
    pub pending: bool,
    /// Level of the input line.
    pub level: bool,
    pub active: bool,
    pub group1: bool,
    /// true = rising edge, false = high level.
    pub edge: bool,
    pub priority: u8,
    /// GICD_IROUTER (SPIs only).
    pub router: u64,
}

impl Irq {
    pub open spec fn reset(edge: bool) -> Irq {
        Irq {
            enabled: false,
            pending: false,
            level: false,
            active: false,
            group1: false,
            edge,
            priority: 0,
            router: 0,
        }
    }

    pub open spec fn pends(self) -> bool {
        self.pending || (!self.edge && self.level)
    }

    fn is_pending(&self) -> (r: bool)
        ensures
            r == self.pends(),
    {
        self.pending || (!self.edge && self.level)
    }

    /// IRM = 1 (any CPU) or affinity 0.0.0.0; SGIs and PPIs are always local.
    pub open spec fn routed_here(self, intid: int) -> bool {
        intid < 32 || self.router & 0x8000_0000 != 0 || self.router & 0xFF_00FF_FFFF == 0
    }

    /// The interrupt may be signalled to this CPU.
    pub open spec fn candidate(self, intid: int) -> bool {
        self.enabled && self.pends() && !self.active && self.group1 && self.routed_here(intid)
    }

    pub open spec fn with_level(self, level: bool) -> Irq {
        Irq { pending: self.pending || (self.edge && level && !self.level), level, ..self }
    }

    /// The bit that a read of a bitmap register of kind `op` shows.
    pub open spec fn bit(self, op: BitOp) -> bool {
        match op {
            BitOp::Group => self.group1,
            BitOp::SetEnable | BitOp::ClearEnable => self.enabled,
            BitOp::SetPending | BitOp::ClearPending => self.pends(),
            BitOp::SetActive | BitOp::ClearActive => self.active,
        }
    }

    /// The interrupt after a write of `one` to its bit of a bitmap register.
    pub open spec fn bit_written(self, op: BitOp, one: bool) -> Irq {
        match op {
            BitOp::Group => Irq { group1: one, ..self },
            BitOp::SetEnable => Irq { enabled: self.enabled || one, ..self },
            BitOp::ClearEnable => Irq { enabled: self.enabled && !one, ..self },
            BitOp::SetPending => Irq { pending: self.pending || one, ..self },
            BitOp::ClearPending => Irq { pending: self.pending && !one, ..self },
            BitOp::SetActive => Irq { active: self.active || one, ..self },
            BitOp::ClearActive => Irq { active: self.active && !one, ..self },
        }
    }
}

/// Kinds of bitmap registers, shared by the distributor and the redistributor.
#[derive(Clone, Copy, Debug, PartialEq, Eq, Structural)]
pub enum BitOp {
    Group,
    SetEnable,
    ClearEnable,
    SetPending,
    ClearPending,
    SetActive,
    ClearActive,
}

/// The kind of bitmap register at offset `reg` (0x80 bytes for each kind).
pub open spec fn spec_bit_op(reg: u64) -> Option<BitOp> {
    let base = reg - reg % 0x80;
    if base == GICD_IGROUPR {
        Some(BitOp::Group)
    } else if base == GICD_ISENABLER {
        Some(BitOp::SetEnable)
    } else if base == GICD_ICENABLER {
        Some(BitOp::ClearEnable)
    } else if base == GICD_ISPENDR {
        Some(BitOp::SetPending)
    } else if base == GICD_ICPENDR {
        Some(BitOp::ClearPending)
    } else if base == GICD_ISACTIVER {
        Some(BitOp::SetActive)
    } else if base == GICD_ICACTIVER {
        Some(BitOp::ClearActive)
    } else {
        None
    }
}

fn bit_op(reg: u64) -> (r: Option<BitOp>)
    ensures
        r == spec_bit_op(reg),
{
    match reg - reg % 0x80 {
        GICD_IGROUPR => Some(BitOp::Group),
        GICD_ISENABLER => Some(BitOp::SetEnable),
        GICD_ICENABLER => Some(BitOp::ClearEnable),
        GICD_ISPENDR => Some(BitOp::SetPending),
        GICD_ICPENDR => Some(BitOp::ClearPending),
        GICD_ISACTIVER => Some(BitOp::SetActive),
        GICD_ICACTIVER => Some(BitOp::ClearActive),
        _ => None,
    }
}

/// The word whose bit `i * step + off` is `bits[i]`, for every `i`.
pub open spec fn pack(bits: Seq<bool>, step: u32, off: u32) -> u32
    decreases bits.len(),
{
    if bits.len() == 0 {
        0
    } else {
        let i = (bits.len() - 1) as u32;
        pack(bits.drop_last(), step, off) | (if bits.last() { 1u32 } else { 0u32 }) << (i * step
            + off) as u32
    }
}

/// Bit `i` of `v`.
pub open spec fn bit_of(v: u32, i: u32) -> bool {
    v & (1u32 << i) != 0
}

/// Every bit of a packed bitmap is the bit it was packed from, and the bits
/// above the last one are clear.
pub proof fn lemma_pack_bits(bits: Seq<bool>)
    requires
        bits.len() <= 32,
    ensures
        forall|i: u32| i < bits.len() ==> #[trigger] bit_of(pack(bits, 1, 0), i) == bits[i as int],
        forall|i: u32| bits.len() <= i < 32 ==> !#[trigger] bit_of(pack(bits, 1, 0), i),
    decreases bits.len(),
{
    if bits.len() == 0 {
        assert(forall|i: u32| i < 32 ==> 0u32 & (#[trigger] (1u32 << i)) == 0u32) by (bit_vector);
    } else {
        lemma_pack_bits(bits.drop_last());
        let p = pack(bits.drop_last(), 1, 0);
        let k = (bits.len() - 1) as u32;
        let b: u32 = if bits.last() { 1u32 } else { 0u32 };
        assert((k * 1 + 0) as u32 == k);
        let q = p | b << k;
        assert forall|i: u32| i < 32 implies #[trigger] bit_of(q, i) == (if i == k {
            bit_of(p, i) || b == 1
        } else {
            bit_of(p, i)
        }) by {
            assert(q & (1u32 << i) == (p & (1u32 << i)) | (if i == k { b << i } else { 0u32 }))
                by (bit_vector)
                requires
                    i < 32,
                    k < 32,
                    b == 0 || b == 1,
                    q == p | b << k,
            ;
            assert(forall|x: u32, y: u32| #[trigger] (x | y) == 0 <==> x == 0 && y == 0)
                by (bit_vector);
            assert(b == 0 || b == 1 ==> (b << i == 0 <==> b == 0)) by (bit_vector)
                requires
                    i < 32,
            ;
        }
    }
}

/// What a [`Gic`] holds.
#[verifier::ext_equal]
pub struct GicState {
    pub irqs: Seq<Irq>,
    pub gicd_ctlr: u32,
    pub processor_sleep: bool,
    pub pmr: u8,
    pub bpr1: u8,
    pub igrpen1: bool,
    pub eoimode: bool,
    pub active_prio: Seq<(u32, u8)>,
}

#[derive(Clone, Debug)]
pub struct Gic {
    pub irqs: Vec<Irq>,
    /// Only EnableGrp0/EnableGrp1; ARE and DS are added on reads.
    pub gicd_ctlr: u32,
    pub processor_sleep: bool,
    // CPU interface.
    pub pmr: u8,
    pub bpr1: u8,
    pub igrpen1: bool,
    pub eoimode: bool,
    /// Active priorities (INTID, group priority), the highest on top.
    pub active_prio: Vec<(u32, u8)>,
}

impl View for Gic {
    type V = GicState;

    open spec fn view(&self) -> GicState {
        GicState {
            irqs: self.irqs@,
            gicd_ctlr: self.gicd_ctlr,
            processor_sleep: self.processor_sleep,
            pmr: self.pmr,
            bpr1: self.bpr1,
            igrpen1: self.igrpen1,
            eoimode: self.eoimode,
            active_prio: self.active_prio@,
        }
    }
}

/// The union of the bits of the active priorities (bit = priority / 8).
pub open spec fn prio_bits(stack: Seq<(u32, u8)>) -> u64
    decreases stack.len(),
{
    if stack.len() == 0 {
        0
    } else {
        prio_bits(stack.drop_last()) | 1u64 << (stack.last().1 / 8) as u64
    }
}

/// The stack of priorities that the bits `n..32` of `value` stand for: one
/// entry per bit, the lowest bit on top, without an INTID.
pub open spec fn prio_stack(value: u64, n: int) -> Seq<(u32, u8)>
    decreases 32 - n,
{
    if n >= 32 {
        Seq::empty()
    } else if value & (1u64 << n as u64) != 0 {
        prio_stack(value, n + 1).push((INTID_SPURIOUS, (n * 8) as u8))
    } else {
        prio_stack(value, n + 1)
    }
}

impl GicState {
    pub open spec fn reset() -> GicState {
        GicState {
            irqs: Seq::new(NUM_INTIDS as nat, |i: int| Irq::reset(i < 16)),
            gicd_ctlr: 0,
            processor_sleep: true,
            pmr: 0,
            bpr1: MIN_BPR1,
            igrpen1: false,
            eoimode: false,
            active_prio: Seq::empty(),
        }
    }

    /// There is one entry per INTID, and BPR1 leaves bits of a priority.
    pub open spec fn wf(self) -> bool {
        &&& self.irqs.len() == NUM_INTIDS
        &&& self.bpr1 <= 7
    }

    /// SGIs are edge triggered, and BPR1 is in its range.
    pub open spec fn settled(self) -> bool {
        &&& self.wf()
        &&& forall|i: int| 0 <= i < 16 ==> (#[trigger] self.irqs[i]).edge
        &&& MIN_BPR1 <= self.bpr1
    }

    pub open spec fn with_irq(self, intid: int, irq: Irq) -> GicState {
        GicState { irqs: self.irqs.update(intid, irq), ..self }
    }

    pub open spec fn level_set(self, intid: u32, level: bool) -> GicState {
        if 16 <= intid < self.irqs.len() {
            self.with_irq(intid as int, self.irqs[intid as int].with_level(level))
        } else {
            self
        }
    }

    pub open spec fn sgi_sent(self, intid: u32) -> GicState {
        if intid < 16 {
            self.with_irq(intid as int, Irq { pending: true, ..self.irqs[intid as int] })
        } else {
            self
        }
    }

    pub open spec fn candidate(self, i: int) -> bool {
        0 <= i < self.irqs.len() && self.irqs[i].candidate(i)
    }

    /// Interrupt `i` may be signalled, and none that may be has a higher
    /// priority (a lower value), or the same with a lower INTID.
    pub open spec fn is_top(self, i: int) -> bool {
        &&& self.candidate(i)
        &&& forall|j: int| #[trigger]
            self.candidate(j) ==> self.irqs[i].priority < self.irqs[j].priority || (
            self.irqs[i].priority == self.irqs[j].priority && i <= j)
    }

    /// The pending group 1 interrupt of highest priority, whatever PMR and the
    /// running priority are.
    pub open spec fn highest(self) -> Option<(u32, u8)> {
        if self.gicd_ctlr & GICD_CTLR_ENABLE_GRP1 != 0 && exists|i: int| self.is_top(i) {
            let i = choose|i: int| self.is_top(i);
            Some((i as u32, self.irqs[i].priority))
        } else {
            None
        }
    }

    pub open spec fn group_prio(self, prio: u8) -> u8 {
        prio & (0xFFu8 << self.bpr1)
    }

    /// Running priority (0x100 = none active).
    pub open spec fn running(self) -> u16 {
        if self.active_prio.len() == 0 { 0x100 } else { self.active_prio.last().1 as u16 }
    }

    /// The interrupt that the CPU interface would signal now.
    pub open spec fn deliverable(self) -> Option<(u32, u8)> {
        match self.highest() {
            Some((intid, prio)) => if self.igrpen1 && prio < self.pmr && self.group_prio(prio)
                < self.running() {
                Some((intid, prio))
            } else {
                None
            },
            None => None,
        }
    }

    /// The state after the CPU has read IAR1.
    pub open spec fn acknowledged(self) -> GicState {
        match self.deliverable() {
            Some((intid, prio)) => GicState {
                irqs: self.irqs.update(
                    intid as int,
                    Irq { active: true, pending: false, ..self.irqs[intid as int] },
                ),
                active_prio: self.active_prio.push((intid, self.group_prio(prio))),
                ..self
            },
            None => self,
        }
    }

    pub open spec fn deactivated(self, intid: u32) -> GicState {
        if intid < self.irqs.len() {
            self.with_irq(intid as int, Irq { active: false, ..self.irqs[intid as int] })
        } else {
            self
        }
    }

    /// The state after a write of `value` to EOIR1.
    pub open spec fn ended(self, value: u64) -> GicState {
        let intid = (value % 0x100_0000) as u32;
        if 1020 <= intid < 1024 {
            self
        } else {
            let dropped = GicState {
                active_prio: if self.active_prio.len() == 0 {
                    self.active_prio
                } else {
                    self.active_prio.drop_last()
                },
                ..self
            };
            if self.eoimode { dropped } else { dropped.deactivated(intid) }
        }
    }

    /// The state after a write of `value` to SGI1R: only affinity 0.0.0 with
    /// bit 0 of the target list hits this CPU; IRM = 1 hits nobody.
    pub open spec fn sgi1r_written(self, value: u64) -> GicState {
        if value & 0x100_0000_0000 == 0 && value & 0x00FF_00FF_00FF_0000 == 0 && (value & 0xFFFF)
            & 1 != 0 {
            self.sgi_sent(((value >> 24) & 0xF) as u32)
        } else {
            self
        }
    }

    /// Bitmap register `word` of kind `op`.
    pub open spec fn bits(self, word: int, op: BitOp) -> u32 {
        pack(Seq::new(32, |b: int| self.irqs[word * 32 + b].bit(op)), 1, 0)
    }

    pub open spec fn bits_written(self, word: int, op: BitOp, value: u32) -> GicState {
        GicState {
            irqs: Seq::new(
                self.irqs.len(),
                |i: int|
                    if word * 32 <= i < word * 32 + 32 {
                        self.irqs[i].bit_written(op, bit_of(value, (i - word * 32) as u32))
                    } else {
                        self.irqs[i]
                    },
            ),
            ..self
        }
    }

    /// Priority of interrupt `i`; 0 past the last one.
    pub open spec fn prio(self, i: int) -> int {
        if i < self.irqs.len() { self.irqs[i].priority as int } else { 0 }
    }

    /// The priorities of `size` interrupts from `first`, one byte each, little
    /// endian.
    pub open spec fn prios(self, first: int, size: u8) -> int {
        if size == 1 {
            self.prio(first)
        } else if size == 2 {
            self.prio(first) + self.prio(first + 1) * 0x100
        } else {
            self.prio(first) + self.prio(first + 1) * 0x100 + self.prio(first + 2) * 0x1_0000
                + self.prio(first + 3) * 0x100_0000
        }
    }

    pub open spec fn prios_written(self, first: int, size: u8, value: u64) -> GicState {
        GicState {
            irqs: Seq::new(
                self.irqs.len(),
                |i: int|
                    if first <= i < first + size {
                        Irq { priority: (value >> (8 * (i - first)) as u64) as u8, ..self.irqs[i] }
                    } else {
                        self.irqs[i]
                    },
            ),
            ..self
        }
    }

    /// ICFGRn: two bits per interrupt, the high one means "edge".
    pub open spec fn cfg(self, word: int) -> u32 {
        pack(Seq::new(16, |b: int| self.irqs[word * 16 + b].edge), 2, 1)
    }

    pub open spec fn cfg_written(self, word: int, value: u32) -> GicState {
        GicState {
            irqs: Seq::new(
                self.irqs.len(),
                |i: int|
                    if word * 16 <= i < word * 16 + 16 {
                        Irq {
                            edge: bit_of(value, (2 * (i - word * 16) + 1) as u32),
                            ..self.irqs[i]
                        }
                    } else {
                        self.irqs[i]
                    },
            ),
            ..self
        }
    }

    /// The router of interrupt `n`; 0 past the last one.
    pub open spec fn router(self, n: int) -> u64 {
        if n < self.irqs.len() { self.irqs[n].router } else { 0 }
    }

    /// `offset` and `size` reach a priority register of an SPI.
    pub open spec fn is_spi_prio(offset: u64, size: u8) -> bool {
        GICD_IPRIORITYR + 32 <= offset < 0x800 && (size == 1 || size == 2 || size == 4)
    }

    /// `offset` and `size` reach a router register of an SPI.
    pub open spec fn is_spi_router(offset: u64, size: u8) -> bool {
        GICD_IROUTER + 32 * 8 <= offset < 0x8000 && (size == 4 || size == 8)
    }

    /// Index of the 32-bit register inside its kind.
    pub open spec fn bitmap_word(offset: u64) -> int {
        (offset as int % 0x80) / 4
    }

    /// A 32-bit read of the distributor.
    pub open spec fn dist_word(self, offset: u64) -> u32 {
        if offset == GICD_CTLR {
            self.gicd_ctlr | GICD_CTLR_ARE | GICD_CTLR_DS
        } else if offset == GICD_TYPER {
            0x48_0008
        } else if offset == GICD_IIDR {
            IIDR
        } else if 0x80 <= offset < 0x400 {
            let n = Self::bitmap_word(offset);
            match spec_bit_op(offset) {
                Some(op) => if 1 <= n < 9 { self.bits(n, op) } else { 0 },
                None => 0,
            }
        } else if GICD_ICFGR <= offset < GICD_IGRPMODR {
            let n = (offset - GICD_ICFGR) / 4;
            if 2 <= n < 18 { self.cfg(n) } else { 0 }
        } else if 0xFFD0 <= offset <= 0xFFFC {
            id_byte(0x92, (offset - 0xFFD0) / 4)
        } else {
            0
        }
    }

    /// What a read of `size` bytes of the distributor gives.
    pub open spec fn dist_value(self, offset: u64, size: u8) -> u64 {
        if Self::is_spi_prio(offset, size) {
            self.prios(offset - GICD_IPRIORITYR, size) as u64
        } else if Self::is_spi_router(offset, size) {
            let r = self.router((offset - GICD_IROUTER) / 8);
            if size == 8 {
                r
            } else if (offset / 4) % 2 == 0 {
                (r % 0x1_0000_0000) as u64
            } else {
                (r / 0x1_0000_0000) as u64
            }
        } else if size == 4 && offset % 4 == 0 {
            self.dist_word(offset) as u64
        } else {
            0
        }
    }

    /// A router after a write of `size` bytes of `value` at `offset`.
    pub open spec fn router_written(was: u64, offset: u64, size: u8, value: u64) -> u64 {
        let r = if size == 8 {
            value
        } else if (offset / 4) % 2 == 0 {
            (was & !0xFFFF_FFFFu64) | value
        } else {
            (was & 0xFFFF_FFFF) | value << 32
        };
        r & 0xFF_80FF_FFFF
    }

    /// The state after a write of `size` bytes of `value` to the distributor.
    pub open spec fn dist_written(self, offset: u64, size: u8, value: u64) -> GicState {
        if Self::is_spi_prio(offset, size) {
            self.prios_written(offset - GICD_IPRIORITYR, size, value)
        } else if Self::is_spi_router(offset, size) {
            let n = (offset - GICD_IROUTER) / 8;
            if n < self.irqs.len() {
                let router = Self::router_written(self.irqs[n].router, offset, size, value);
                self.with_irq(n, Irq { router, ..self.irqs[n] })
            } else {
                self
            }
        } else if size == 4 && offset % 4 == 0 {
            let v = value as u32;
            if offset == GICD_CTLR {
                GicState {
                    gicd_ctlr: v & (GICD_CTLR_ENABLE_GRP0 | GICD_CTLR_ENABLE_GRP1),
                    ..self
                }
            } else if 0x80 <= offset < 0x400 {
                let n = Self::bitmap_word(offset);
                match spec_bit_op(offset) {
                    Some(op) => if 1 <= n < 9 { self.bits_written(n, op, v) } else { self },
                    None => self,
                }
            } else if GICD_ICFGR <= offset < GICD_IGRPMODR {
                let n = (offset - GICD_ICFGR) / 4;
                if 2 <= n < 18 { self.cfg_written(n, v) } else { self }
            } else {
                self
            }
        } else {
            self
        }
    }

    /// `off` is one of the bitmap registers of the SGI frame.
    pub open spec fn is_sgi_bitmap(off: u64) -> bool {
        0x80 <= off < 0x400 && off % 0x80 == 0
    }

    /// `off` and `size` reach a priority register of the SGI frame.
    pub open spec fn is_sgi_prio(off: u64, size: u8) -> bool {
        GICR_IPRIORITYR <= off < 0x420 && (size == 1 || size == 2 || size == 4)
    }

    /// What a read of `size` bytes of the redistributor gives.
    pub open spec fn redist_value(self, offset: u64, size: u8) -> u64 {
        if offset >= GICR_SGI_BASE {
            let off = (offset - GICR_SGI_BASE) as u64;
            if Self::is_sgi_prio(off, size) {
                self.prios(off - GICR_IPRIORITYR, size) as u64
            } else if size == 4 && Self::is_sgi_bitmap(off) {
                self.bits(0, spec_bit_op(off)->0) as u64
            } else if size == 4 && off == GICR_ICFGR0 {
                self.cfg(0) as u64
            } else if size == 4 && off == GICR_ICFGR1 {
                self.cfg(1) as u64
            } else {
                0
            }
        } else if offset == GICR_TYPER && (size == 4 || size == 8) {
            // Last = 1, Processor_Number = 0, affinity 0.0.0.0.
            0x10
        } else if size == 4 && offset == GICR_IIDR {
            IIDR as u64
        } else if size == 4 && offset == GICR_WAKER {
            if self.processor_sleep {
                (GICR_WAKER_PROCESSOR_SLEEP | GICR_WAKER_CHILDREN_ASLEEP) as u64
            } else {
                0
            }
        } else if size == 4 && 0xFFD0 <= offset <= 0xFFFC {
            id_byte(0x93, (offset - 0xFFD0) / 4) as u64
        } else {
            0
        }
    }

    /// The state after a write of `size` bytes of `value` to the redistributor.
    pub open spec fn redist_written(self, offset: u64, size: u8, value: u64) -> GicState {
        if offset >= GICR_SGI_BASE {
            let off = (offset - GICR_SGI_BASE) as u64;
            if Self::is_sgi_prio(off, size) {
                self.prios_written(off - GICR_IPRIORITYR, size, value)
            } else if size == 4 && Self::is_sgi_bitmap(off) {
                self.bits_written(0, spec_bit_op(off)->0, value as u32)
            } else if size == 4 && off == GICR_ICFGR1 {
                // ICFGR0 (SGIs) is read-only: always edge.
                self.cfg_written(1, value as u32)
            } else {
                self
            }
        } else if offset == GICR_WAKER && size == 4 {
            GicState {
                processor_sleep: value as u32 & GICR_WAKER_PROCESSOR_SLEEP != 0,
                ..self
            }
        } else {
            self
        }
    }

    /// What a read of the whole region gives.
    pub open spec fn mmio_value(self, offset: u64, size: u8) -> u64 {
        if offset < crate::platform::map::GICD_SIZE {
            self.dist_value(offset, size)
        } else if GICR_OFFSET <= offset < MMIO_SIZE {
            self.redist_value((offset - GICR_OFFSET) as u64, size)
        } else {
            0
        }
    }

    /// The state after a write to the whole region.
    pub open spec fn mmio_written(self, offset: u64, size: u8, value: u64) -> GicState {
        if offset < crate::platform::map::GICD_SIZE {
            self.dist_written(offset, size, value)
        } else if GICR_OFFSET <= offset < MMIO_SIZE {
            self.redist_written((offset - GICR_OFFSET) as u64, size, value)
        } else {
            self
        }
    }
}

/// At most one interrupt is on top.
pub proof fn lemma_top_is_unique(s: GicState, i: int, j: int)
    requires
        s.is_top(i),
        s.is_top(j),
    ensures
        i == j,
{
    assert(s.candidate(i));
    assert(s.candidate(j));
}

impl Default for Gic {
    fn default() -> (r: Self)
        ensures
            r@ == GicState::reset(),
    {
        Gic::new()
    }
}

impl Gic {
    pub fn new() -> (r: Self)
        ensures
            r@ == GicState::reset(),
            r@.wf(),
            r@.settled(),
    {
        let mut irqs: Vec<Irq> = Vec::new();
        let mut i: usize = 0;
        while i < NUM_INTIDS
            invariant
                i <= NUM_INTIDS,
                irqs@ =~= Seq::new(i as nat, |k: int| Irq::reset(k < 16)),
            decreases NUM_INTIDS - i,
        {
            // SGIs are always edge triggered.
            irqs.push(
                Irq {
                    enabled: false,
                    pending: false,
                    level: false,
                    active: false,
                    group1: false,
                    edge: i < 16,
                    priority: 0,
                    router: 0,
                },
            );
            i += 1;
        }
        Gic {
            irqs,
            gicd_ctlr: 0,
            processor_sleep: true,
            pmr: 0,
            bpr1: MIN_BPR1,
            igrpen1: false,
            eoimode: false,
            active_prio: Vec::new(),
        }
    }

    // ---- Input lines --------------------------------------------------------

    /// Level of the line of a PPI (16..31) or SPI (32..). On an interrupt
    /// configured as edge, the rise sets the pending latch.
    pub fn set_irq_level(&mut self, intid: u32, level: bool)
        requires
            old(self)@.wf(),
        ensures
            final(self)@ == old(self)@.level_set(intid, level),
            final(self)@.wf(),
    {
        if intid < 16 || intid as usize >= self.irqs.len() {
            return ;
        }
        let i: usize = intid as usize;
        let mut irq: Irq = self.irqs[i];
        if irq.edge && level && !irq.level {
            irq.pending = true;
        }
        irq.level = level;
        self.irqs.set(i, irq);
        assert(self@ =~= old(self)@.level_set(intid, level));
    }

    /// Level of the line of SPI `spi` (INTID `32 + spi`).
    pub fn set_spi_level(&mut self, spi: u32, level: bool)
        requires
            old(self)@.wf(),
            spi <= u32::MAX - 32,
        ensures
            final(self)@ == old(self)@.level_set((32 + spi) as u32, level),
            final(self)@.wf(),
    {
        self.set_irq_level(crate::platform::map::SPI_BASE + spi, level);
    }

    /// Makes an SGI (0..15) pending on CPU 0.
    pub fn send_sgi(&mut self, intid: u32)
        requires
            old(self)@.wf(),
        ensures
            final(self)@ == old(self)@.sgi_sent(intid),
            final(self)@.wf(),
    {
        if intid < 16 {
            let mut irq: Irq = self.irqs[intid as usize];
            irq.pending = true;
            self.irqs.set(intid as usize, irq);
        }
    }

    /// State of an interrupt: (enabled, pending, active).
    pub fn irq_state(&self, intid: u32) -> (r: Option<(bool, bool, bool)>)
        ensures
            r == (if intid < self@.irqs.len() {
                let i = self@.irqs[intid as int];
                Some((i.enabled, i.pends(), i.active))
            } else {
                None
            }),
    {
        if (intid as usize) < self.irqs.len() {
            let i: Irq = self.irqs[intid as usize];
            Some((i.enabled, i.is_pending(), i.active))
        } else {
            None
        }
    }

    // ---- Selection ----------------------------------------------------------

    fn routed_here(intid: usize, irq: &Irq) -> (r: bool)
        ensures
            r == irq.routed_here(intid as int),
    {
        intid < 32 || irq.router & 0x8000_0000 != 0 || irq.router & 0xFF_00FF_FFFF == 0
    }

    /// Pending group 1 interrupt of highest priority (lowest value; on a tie the
    /// lowest INTID wins), without looking at PMR or at the running priority.
    pub fn highest_pending(&self) -> (r: Option<(u32, u8)>)
        requires
            self@.wf(),
        ensures
            r == self@.highest(),
            r matches Some((i, p)) ==> self@.is_top(i as int) && p == self@.irqs[i as int].priority,
    {
        if self.gicd_ctlr & GICD_CTLR_ENABLE_GRP1 == 0 {
            return None;
        }
        let mut best: Option<(u32, u8)> = None;
        let mut i: usize = 0;
        while i < self.irqs.len()
            invariant
                self@.wf(),
                i <= self@.irqs.len(),
                match best {
                    None => forall|j: int| 0 <= j < i ==> !#[trigger] self@.candidate(j),
                    Some((b, p)) => {
                        &&& 0 <= b < i
                        &&& self@.candidate(b as int)
                        &&& p == self@.irqs[b as int].priority
                        &&& forall|j: int|
                            0 <= j < i && #[trigger] self@.candidate(j) ==> p
                                < self@.irqs[j].priority || (p == self@.irqs[j].priority && b <= j)
                    },
                },
            decreases self@.irqs.len() - i,
        {
            let irq: Irq = self.irqs[i];
            let better: bool = match best {
                None => true,
                Some((_, p)) => irq.priority < p,
            };
            if irq.enabled && irq.is_pending() && !irq.active && irq.group1 && Self::routed_here(
                i,
                &irq,
            ) && better {
                assert(self@.candidate(i as int));
                best = Some((i as u32, irq.priority));
            }
            i += 1;
        }
        proof {
            match best {
                Some((b, p)) => {
                    assert(self@.is_top(b as int));
                    lemma_top_is_unique(
                        self@,
                        b as int,
                        choose|k: int| self@.is_top(k),
                    );
                },
                None => {
                    assert forall|k: int| !self@.is_top(k) by {
                        assert(!self@.candidate(k));
                    }
                },
            }
        }
        best
    }

    fn group_prio(&self, prio: u8) -> (r: u8)
        requires
            self@.wf(),
        ensures
            r == self@.group_prio(prio),
    {
        prio & (0xFFu8 << self.bpr1)
    }

    fn running(&self) -> (r: u16)
        ensures
            r == self@.running(),
    {
        if self.active_prio.len() == 0 {
            0x100
        } else {
            self.active_prio[self.active_prio.len() - 1].1 as u16
        }
    }

    fn deliverable(&self) -> (r: Option<(u32, u8)>)
        requires
            self@.wf(),
        ensures
            r == self@.deliverable(),
            r matches Some((i, p)) ==> self@.is_top(i as int) && p == self@.irqs[i as int].priority,
    {
        match self.highest_pending() {
            Some((intid, prio)) => if self.igrpen1 && prio < self.pmr && (self.group_prio(
                prio,
            ) as u16) < self.running() {
                Some((intid, prio))
            } else {
                None
            },
            None => None,
        }
    }

    /// IRQ line towards the CPU: the CPU takes the exception if PSTATE.I is 0.
    pub fn irq_line(&self) -> (r: bool)
        requires
            self@.wf(),
        ensures
            r == (self@.deliverable() is Some),
    {
        self.deliverable().is_some()
    }

    // ---- CPU interface (system registers) -----------------------------------

    /// MRS ICC_IAR1_EL1: acknowledges the signalled interrupt (it becomes
    /// active) and returns its INTID, or 1023.
    pub fn read_iar1(&mut self) -> (r: u64)
        requires
            old(self)@.wf(),
        ensures
            r == (match old(self)@.deliverable() {
                Some((intid, _)) => intid,
                None => INTID_SPURIOUS,
            }),
            final(self)@ == old(self)@.acknowledged(),
            final(self)@.wf(),
    {
        match self.deliverable() {
            Some((intid, prio)) => {
                let gp: u8 = self.group_prio(prio);
                let mut irq: Irq = self.irqs[intid as usize];
                irq.active = true;
                irq.pending = false;
                self.irqs.set(intid as usize, irq);
                self.active_prio.push((intid, gp));
                intid as u64
            },
            None => INTID_SPURIOUS as u64,
        }
    }

    /// MRS ICC_HPPIR1_EL1: pending INTID of highest priority, without
    /// acknowledging it.
    pub fn read_hppir1(&self) -> (r: u64)
        requires
            self@.wf(),
        ensures
            r == (match self@.highest() {
                Some((intid, _)) => intid,
                None => INTID_SPURIOUS,
            }),
    {
        match self.highest_pending() {
            Some((i, _)) => i as u64,
            None => INTID_SPURIOUS as u64,
        }
    }

    /// MSR ICC_EOIR1_EL1: drops the running priority and, with EOImode = 0,
    /// deactivates the interrupt.
    pub fn write_eoir1(&mut self, value: u64)
        requires
            old(self)@.wf(),
        ensures
            final(self)@ == old(self)@.ended(value),
            final(self)@.wf(),
    {
        let intid: u32 = (value % 0x100_0000) as u32;
        if 1020 <= intid && intid < 1024 {
            return ;
        }
        let _ = self.active_prio.pop();
        if !self.eoimode {
            self.deactivate(intid);
        }
    }

    /// MSR ICC_DIR_EL1: separate deactivation (used with EOImode = 1).
    pub fn write_dir(&mut self, value: u64)
        requires
            old(self)@.wf(),
        ensures
            final(self)@ == old(self)@.deactivated((value % 0x100_0000) as u32),
            final(self)@.wf(),
    {
        self.deactivate((value % 0x100_0000) as u32);
    }

    fn deactivate(&mut self, intid: u32)
        requires
            old(self)@.wf(),
        ensures
            final(self)@ == old(self)@.deactivated(intid),
            final(self)@.wf(),
    {
        if (intid as usize) < self.irqs.len() {
            let mut irq: Irq = self.irqs[intid as usize];
            irq.active = false;
            self.irqs.set(intid as usize, irq);
        }
    }

    /// MSR ICC_SGI1R_EL1: with one CPU only affinity 0.0.0 with bit 0 of the
    /// target list counts; IRM = 1 ("all but me") hits nobody.
    pub fn write_sgi1r(&mut self, value: u64)
        requires
            old(self)@.wf(),
        ensures
            final(self)@ == old(self)@.sgi1r_written(value),
            final(self)@.wf(),
    {
        let targets: u64 = value & 0xFFFF;
        let affs: u64 = value & 0x00FF_00FF_00FF_0000;
        let irm: bool = value & 0x100_0000_0000 != 0;
        if !irm && affs == 0 && targets & 1 != 0 {
            self.send_sgi(((value >> 24) & 0xF) as u32);
        }
    }

    pub fn read_pmr(&self) -> (r: u64)
        ensures
            r == self@.pmr,
    {
        self.pmr as u64
    }

    pub fn write_pmr(&mut self, value: u64)
        ensures
            final(self)@ == (GicState { pmr: value as u8 & PRI_MASK, ..old(self)@ }),
    {
        self.pmr = value as u8 & PRI_MASK;
    }

    pub fn read_bpr1(&self) -> (r: u64)
        ensures
            r == self@.bpr1,
    {
        self.bpr1 as u64
    }

    pub fn write_bpr1(&mut self, value: u64)
        ensures
            final(self)@ == (GicState {
                bpr1: if value % 8 < 3 { MIN_BPR1 } else { (value % 8) as u8 },
                ..old(self)@
            }),
            old(self)@.wf() ==> final(self)@.wf(),
            old(self)@.settled() ==> final(self)@.settled(),
    {
        let v: u8 = (value % 8) as u8;
        self.bpr1 = if v < MIN_BPR1 { MIN_BPR1 } else { v };
    }

    /// MRS ICC_RPR_EL1: running priority, 0xFF if none.
    pub fn read_rpr(&self) -> (r: u64)
        ensures
            r == (if self@.running() < 0xFF { self@.running() } else { 0xFF }),
    {
        let p: u16 = self.running();
        if p < 0xFF { p as u64 } else { 0xFF }
    }

    pub fn read_ctlr(&self) -> (r: u64)
        ensures
            r == ICC_CTLR_A3V | ICC_CTLR_PRIBITS | (if self@.eoimode { ICC_CTLR_EOIMODE } else { 0 }),
    {
        ICC_CTLR_A3V | ICC_CTLR_PRIBITS | if self.eoimode { ICC_CTLR_EOIMODE } else { 0 }
    }

    pub fn write_ctlr(&mut self, value: u64)
        ensures
            final(self)@ == (GicState { eoimode: value & ICC_CTLR_EOIMODE != 0, ..old(self)@ }),
    {
        self.eoimode = value & ICC_CTLR_EOIMODE != 0;
    }

    pub fn read_igrpen1(&self) -> (r: u64)
        ensures
            r == (if self@.igrpen1 { 1u64 } else { 0 }),
    {
        if self.igrpen1 { 1 } else { 0 }
    }

    pub fn write_igrpen1(&mut self, value: u64)
        ensures
            final(self)@ == (GicState { igrpen1: value & 1 != 0, ..old(self)@ }),
    {
        self.igrpen1 = value & 1 != 0;
    }

    /// ICC_SRE_EL1: SRE, DFB and DIB fixed to 1 (register interface only).
    pub fn read_sre(&self) -> (r: u64)
        ensures
            r == 7,
    {
        0x7
    }

    pub fn write_sre(&mut self, _value: u64)
        ensures
            *final(self) == *old(self),
    {
    }

    /// ICC_AP1R0_EL1: one bit per active group priority (bit = prio >> 3).
    pub fn read_ap1r0(&self) -> (r: u64)
        ensures
            r == prio_bits(self@.active_prio),
    {
        let mut acc: u64 = 0;
        let mut i: usize = 0;
        while i < self.active_prio.len()
            invariant
                i <= self.active_prio@.len(),
                acc == prio_bits(self.active_prio@.take(i as int)),
            decreases self.active_prio@.len() - i,
        {
            let shift: u64 = (self.active_prio[i].1 / 8) as u64;
            assert(self.active_prio@.take(i + 1).drop_last() =~= self.active_prio@.take(i as int));
            acc = acc | 1u64 << shift;
            i += 1;
        }
        assert(self.active_prio@.take(i as int) =~= self.active_prio@);
        acc
    }

    /// Writing zero empties the active priorities; other values rebuild the
    /// stack without INTIDs.
    pub fn write_ap1r0(&mut self, value: u64)
        ensures
            final(self)@ == (GicState { active_prio: prio_stack(value, 0), ..old(self)@ }),
            old(self)@.wf() ==> final(self)@.wf(),
    {
        self.active_prio.clear();
        let mut n: u64 = 32;
        while n > 0
            invariant
                n <= 32,
                self@ == (GicState { active_prio: prio_stack(value, n as int), ..old(self)@ }),
            decreases n,
        {
            n -= 1;
            if value & (1u64 << n) != 0 {
                self.active_prio.push((INTID_SPURIOUS, (n * 8) as u8));
            }
        }
    }

    // ---- Bitmap registers shared by GICD and GICR ---------------------------

    fn read_bits(&self, word: usize, op: BitOp) -> (r: u32)
        requires
            self@.wf(),
            word < 9,
        ensures
            r == self@.bits(word as int, op),
    {
        let ghost all = Seq::new(32, |b: int| self@.irqs[word * 32 + b].bit(op));
        let mut v: u32 = 0;
        let mut b: usize = 0;
        while b < 32
            invariant
                self@.wf(),
                word < 9,
                b <= 32,
                all == Seq::new(32, |b: int| self@.irqs[word * 32 + b].bit(op)),
                v == pack(all.take(b as int), 1, 0),
            decreases 32 - b,
        {
            let irq: Irq = self.irqs[word * 32 + b];
            let set: bool = match op {
                BitOp::Group => irq.group1,
                BitOp::SetEnable | BitOp::ClearEnable => irq.enabled,
                BitOp::SetPending | BitOp::ClearPending => irq.is_pending(),
                BitOp::SetActive | BitOp::ClearActive => irq.active,
            };
            assert(set == all[b as int]);
            assert(all.take(b + 1).drop_last() =~= all.take(b as int));
            v = v | (if set { 1u32 } else { 0u32 }) << (b as u32);
            b += 1;
        }
        assert(all.take(32) =~= all);
        v
    }

    fn write_bits(&mut self, word: usize, op: BitOp, value: u32)
        requires
            old(self)@.wf(),
            word < 9,
        ensures
            final(self)@ == old(self)@.bits_written(word as int, op, value),
            final(self)@.wf(),
    {
        let mut b: usize = 0;
        while b < 32
            invariant
                old(self)@.wf(),
                word < 9,
                b <= 32,
                self@.irqs.len() == old(self)@.irqs.len(),
                self@ == (GicState { irqs: self@.irqs, ..old(self)@ }),
                forall|i: int|
                    0 <= i < self@.irqs.len() ==> #[trigger] self@.irqs[i] == (if word * 32 <= i
                        < word * 32 + b {
                        old(self)@.irqs[i].bit_written(op, bit_of(value, (i - word * 32) as u32))
                    } else {
                        old(self)@.irqs[i]
                    }),
            decreases 32 - b,
        {
            let one: bool = value & (1u32 << (b as u32)) != 0;
            let mut irq: Irq = self.irqs[word * 32 + b];
            match op {
                BitOp::Group => {
                    irq.group1 = one;
                },
                BitOp::SetEnable => if one {
                    irq.enabled = true;
                },
                BitOp::ClearEnable => if one {
                    irq.enabled = false;
                },
                BitOp::SetPending => if one {
                    irq.pending = true;
                },
                BitOp::ClearPending => if one {
                    irq.pending = false;
                },
                BitOp::SetActive => if one {
                    irq.active = true;
                },
                BitOp::ClearActive => if one {
                    irq.active = false;
                },
            }
            self.irqs.set(word * 32 + b, irq);
            b += 1;
        }
        assert(self@.irqs =~= old(self)@.bits_written(word as int, op, value).irqs);
    }

    fn prio_at(&self, i: usize) -> (r: u64)
        ensures
            r == self@.prio(i as int),
            r < 0x100,
    {
        if i < self.irqs.len() {
            self.irqs[i].priority as u64
        } else {
            0
        }
    }

    fn read_prio(&self, first: usize, size: u8) -> (r: u64)
        requires
            first < 0x400,
            size == 1 || size == 2 || size == 4,
        ensures
            r == self@.prios(first as int, size),
    {
        let p0: u64 = self.prio_at(first);
        if size == 1 {
            return p0;
        }
        let p1: u64 = self.prio_at(first + 1);
        if size == 2 {
            return p0 + p1 * 0x100;
        }
        let p2: u64 = self.prio_at(first + 2);
        let p3: u64 = self.prio_at(first + 3);
        p0 + p1 * 0x100 + p2 * 0x1_0000 + p3 * 0x100_0000
    }

    fn write_prio(&mut self, first: usize, size: u8, value: u64)
        requires
            old(self)@.wf(),
            first < 0x400,
            size <= 4,
        ensures
            final(self)@ == old(self)@.prios_written(first as int, size, value),
            final(self)@.wf(),
    {
        let mut k: usize = 0;
        while k < size as usize
            invariant
                old(self)@.wf(),
                first < 0x400,
                k <= size <= 4,
                self@.irqs.len() == old(self)@.irqs.len(),
                self@ == (GicState { irqs: self@.irqs, ..old(self)@ }),
                forall|i: int|
                    0 <= i < self@.irqs.len() ==> #[trigger] self@.irqs[i] == (if first <= i < first
                        + k {
                        Irq {
                            priority: (value >> (8 * (i - first)) as u64) as u8,
                            ..old(self)@.irqs[i]
                        }
                    } else {
                        old(self)@.irqs[i]
                    }),
            decreases size - k,
        {
            if first + k < self.irqs.len() {
                let mut irq: Irq = self.irqs[first + k];
                let shift: u64 = 8 * k as u64;
                irq.priority = (value >> shift) as u8;
                self.irqs.set(first + k, irq);
            }
            k += 1;
        }
        assert(self@.irqs =~= old(self)@.prios_written(first as int, size, value).irqs);
    }

    fn read_cfg(&self, word: usize) -> (r: u32)
        requires
            self@.wf(),
            word < 18,
        ensures
            r == self@.cfg(word as int),
    {
        let ghost all = Seq::new(16, |b: int| self@.irqs[word * 16 + b].edge);
        let mut v: u32 = 0;
        let mut b: usize = 0;
        while b < 16
            invariant
                self@.wf(),
                word < 18,
                b <= 16,
                all == Seq::new(16, |b: int| self@.irqs[word * 16 + b].edge),
                v == pack(all.take(b as int), 2, 1),
            decreases 16 - b,
        {
            let set: bool = self.irqs[word * 16 + b].edge;
            assert(set == all[b as int]);
            assert(all.take(b + 1).drop_last() =~= all.take(b as int));
            let shift: u32 = b as u32 * 2 + 1;
            v = v | (if set { 1u32 } else { 0u32 }) << shift;
            b += 1;
        }
        assert(all.take(16) =~= all);
        v
    }

    fn write_cfg(&mut self, word: usize, value: u32)
        requires
            old(self)@.wf(),
            1 <= word < 18,
        ensures
            final(self)@ == old(self)@.cfg_written(word as int, value),
            final(self)@.wf(),
    {
        let mut b: usize = 0;
        while b < 16
            invariant
                old(self)@.wf(),
                1 <= word < 18,
                b <= 16,
                self@.irqs.len() == old(self)@.irqs.len(),
                self@ == (GicState { irqs: self@.irqs, ..old(self)@ }),
                forall|i: int|
                    0 <= i < self@.irqs.len() ==> #[trigger] self@.irqs[i] == (if word * 16 <= i
                        < word * 16 + b {
                        Irq {
                            edge: bit_of(value, (2 * (i - word * 16) + 1) as u32),
                            ..old(self)@.irqs[i]
                        }
                    } else {
                        old(self)@.irqs[i]
                    }),
            decreases 16 - b,
        {
            let mut irq: Irq = self.irqs[word * 16 + b];
            let shift: u32 = 2 * (b as u32) + 1;
            irq.edge = value & (1u32 << shift) != 0;
            self.irqs.set(word * 16 + b, irq);
            b += 1;
        }
        assert(self@.irqs =~= old(self)@.cfg_written(word as int, value).irqs);
    }

    // ---- Distributor --------------------------------------------------------

    pub fn dist_read(&mut self, offset: u64, size: u8) -> (r: u64)
        requires
            old(self)@.wf(),
        ensures
            r == old(self)@.dist_value(offset, size),
            *final(self) == *old(self),
    {
        if offset >= GICD_IPRIORITYR + 32 && offset < 0x800 && (size == 1 || size == 2 || size
            == 4) {
            return self.read_prio((offset - GICD_IPRIORITYR) as usize, size);
        }
        if offset >= GICD_IROUTER + 32 * 8 && offset < 0x8000 && (size == 4 || size == 8) {
            let n: usize = ((offset - GICD_IROUTER) / 8) as usize;
            let r: u64 = if n < self.irqs.len() { self.irqs[n].router } else { 0 };
            return if size == 8 {
                r
            } else if (offset / 4) % 2 == 0 {
                r % 0x1_0000_0000
            } else {
                r / 0x1_0000_0000
            };
        }
        if size != 4 || offset % 4 != 0 {
            return 0;
        }
        let word: u32 = match offset {
            GICD_CTLR => self.gicd_ctlr | GICD_CTLR_ARE | GICD_CTLR_DS,
            GICD_TYPER => 0x48_0008,
            GICD_IIDR => IIDR,
            0x0080..=0x03FF => {
                let n: usize = ((offset % 0x80) / 4) as usize;
                match bit_op(offset) {
                    Some(op) => if n >= 1 && n < 9 { self.read_bits(n, op) } else { 0 },
                    None => 0,
                }
            },
            0x0C00..=0x0CFF => {
                let n: usize = ((offset - GICD_ICFGR) / 4) as usize;
                if n >= 2 && n < 18 { self.read_cfg(n) } else { 0 }
            },
            0xFFD0..=0xFFFC => read_id(0x92, (offset - 0xFFD0) / 4),
            _ => 0,
        };
        word as u64
    }

    pub fn dist_write(&mut self, offset: u64, size: u8, value: u64)
        requires
            old(self)@.wf(),
        ensures
            final(self)@ == old(self)@.dist_written(offset, size, value),
            final(self)@.wf(),
    {
        if offset >= GICD_IPRIORITYR + 32 && offset < 0x800 && (size == 1 || size == 2 || size
            == 4) {
            self.write_prio((offset - GICD_IPRIORITYR) as usize, size, value);
            return ;
        }
        if offset >= GICD_IROUTER + 32 * 8 && offset < 0x8000 && (size == 4 || size == 8) {
            let n: usize = ((offset - GICD_IROUTER) / 8) as usize;
            if n < self.irqs.len() {
                let mut irq: Irq = self.irqs[n];
                let r: u64 = if size == 8 {
                    value
                } else if (offset / 4) % 2 == 0 {
                    (irq.router & !0xFFFF_FFFFu64) | value
                } else {
                    (irq.router & 0xFFFF_FFFF) | value << 32
                };
                irq.router = r & 0xFF_80FF_FFFF;
                self.irqs.set(n, irq);
            }
            return ;
        }
        if size != 4 || offset % 4 != 0 {
            return ;
        }
        let v: u32 = value as u32;
        match offset {
            GICD_CTLR => {
                self.gicd_ctlr = v & (GICD_CTLR_ENABLE_GRP0 | GICD_CTLR_ENABLE_GRP1);
            },
            0x0080..=0x03FF => {
                let n: usize = ((offset % 0x80) / 4) as usize;
                match bit_op(offset) {
                    Some(op) => if n >= 1 && n < 9 {
                        self.write_bits(n, op, v);
                    },
                    None => {},
                }
            },
            0x0C00..=0x0CFF => {
                let n: usize = ((offset - GICD_ICFGR) / 4) as usize;
                if n >= 2 && n < 18 {
                    self.write_cfg(n, v);
                }
            },
            _ => {},
        }
    }

    // ---- Redistributor ------------------------------------------------------

    pub fn redist_read(&mut self, offset: u64, size: u8) -> (r: u64)
        requires
            old(self)@.wf(),
        ensures
            r == old(self)@.redist_value(offset, size),
            *final(self) == *old(self),
    {
        if offset >= GICR_SGI_BASE {
            let off: u64 = offset - GICR_SGI_BASE;
            if off >= GICR_IPRIORITYR && off < 0x420 && (size == 1 || size == 2 || size == 4) {
                return self.read_prio((off - GICR_IPRIORITYR) as usize, size);
            }
            if size != 4 {
                return 0;
            }
            if off >= 0x80 && off < 0x400 && off % 0x80 == 0 {
                return match bit_op(off) {
                    Some(op) => self.read_bits(0, op) as u64,
                    None => 0,
                };
            }
            return match off {
                GICR_ICFGR0 => self.read_cfg(0) as u64,
                GICR_ICFGR1 => self.read_cfg(1) as u64,
                _ => 0,
            };
        }
        if size == 8 {
            return if offset == GICR_TYPER { 0x10 } else { 0 };
        }
        if size != 4 {
            return 0;
        }
        let word: u32 = match offset {
            GICR_IIDR => IIDR,
            GICR_TYPER => 0x10,
            GICR_WAKER => if self.processor_sleep {
                GICR_WAKER_PROCESSOR_SLEEP | GICR_WAKER_CHILDREN_ASLEEP
            } else {
                0
            },
            0xFFD0..=0xFFFC => read_id(0x93, (offset - 0xFFD0) / 4),
            _ => 0,
        };
        word as u64
    }

    pub fn redist_write(&mut self, offset: u64, size: u8, value: u64)
        requires
            old(self)@.wf(),
        ensures
            final(self)@ == old(self)@.redist_written(offset, size, value),
            final(self)@.wf(),
    {
        if offset >= GICR_SGI_BASE {
            let off: u64 = offset - GICR_SGI_BASE;
            if off >= GICR_IPRIORITYR && off < 0x420 && (size == 1 || size == 2 || size == 4) {
                self.write_prio((off - GICR_IPRIORITYR) as usize, size, value);
            } else if size == 4 && off >= 0x80 && off < 0x400 && off % 0x80 == 0 {
                match bit_op(off) {
                    Some(op) => self.write_bits(0, op, value as u32),
                    None => {},
                }
            } else if size == 4 && off == GICR_ICFGR1 {
                self.write_cfg(1, value as u32);
            }
            return ;
        }
        if offset == GICR_WAKER && size == 4 {
            self.processor_sleep = value as u32 & GICR_WAKER_PROCESSOR_SLEEP != 0;
        }
    }
}

impl MmioDevice for Gic {
    open spec fn inv(&self) -> bool {
        self@.wf()
    }

    open spec fn reads(pre: Self, offset: u64, size: u8, post: Self, value: u64) -> bool {
        post == pre && value == pre@.mmio_value(offset, size)
    }

    open spec fn writes(pre: Self, offset: u64, size: u8, value: u64, post: Self) -> bool {
        post@ == pre@.mmio_written(offset, size, value)
    }

    fn read(&mut self, offset: u64, size: u8) -> (value: u64) {
        if offset < crate::platform::map::GICD_SIZE {
            self.dist_read(offset, size)
        } else if GICR_OFFSET <= offset && offset < MMIO_SIZE {
            self.redist_read(offset - GICR_OFFSET, size)
        } else {
            0
        }
    }

    fn write(&mut self, offset: u64, size: u8, value: u64) {
        if offset < crate::platform::map::GICD_SIZE {
            self.dist_write(offset, size, value);
        } else if GICR_OFFSET <= offset && offset < MMIO_SIZE {
            self.redist_write(offset - GICR_OFFSET, size, value);
        }
    }
}

/// The active priorities, from the bottom of the stack up, strictly rise in
/// urgency (fall in value).
pub open spec fn nested(stack: Seq<(u32, u8)>) -> bool {
    forall|i: int, j: int| 0 <= i < j < stack.len() ==> (#[trigger] stack[j]).1 < (#[trigger] stack[i]).1
}

/// An interrupt is delivered only over a strictly lower running priority, so
/// acknowledging and ending interrupts keeps the active priorities nested.
pub proof fn law_priorities_stay_nested(s: GicState, value: u64)
    requires
        nested(s.active_prio),
    ensures
        nested(s.acknowledged().active_prio),
        nested(s.ended(value).active_prio),
{
    match s.deliverable() {
        Some((intid, prio)) => {
            let n = s.active_prio.len();
            assert(n > 0 ==> s.group_prio(prio) < s.active_prio[n - 1].1);
        },
        None => {},
    }
}

/// What IAR1 returns is enabled, pending, in group 1, routed here and inactive,
/// and it beats PMR and the running priority.
pub proof fn law_delivered_is_eligible(s: GicState)
    requires
        s.deliverable() is Some,
    ensures
        ({
            let (intid, prio) = s.deliverable()->0;
            let i = intid as int;
            &&& s.gicd_ctlr & GICD_CTLR_ENABLE_GRP1 != 0
            &&& s.igrpen1
            &&& s.irqs.len() <= u32::MAX ==> s.candidate(i) && prio == s.irqs[i].priority
            &&& prio < s.pmr
            &&& s.group_prio(prio) < s.running()
        }),
{
    let i = choose|i: int| s.is_top(i);
    assert(s.is_top(i));
}

/// An active interrupt is not signalled again: after an acknowledgement the same
/// INTID is not what the CPU interface signals next.
pub proof fn law_active_is_not_signalled_again(s: GicState)
    requires
        s.wf(),
        s.deliverable() is Some,
    ensures
        s.acknowledged().deliverable() matches Some((next, _)) ==> next != (s.deliverable()->0).0,
{
    let intid = (s.deliverable()->0).0;
    law_delivered_is_eligible(s);
    let t = s.acknowledged();
    assert(!t.candidate(intid as int));
    if t.deliverable() is Some {
        law_delivered_is_eligible(t);
    }
}

/// Acknowledging an interrupt and then ending it, with EOImode = 0, gives back
/// the running priority and leaves the interrupt inactive; nothing else changes
/// but its pending latch.
pub proof fn law_acknowledge_then_end(s: GicState)
    requires
        s.wf(),
        s.deliverable() is Some,
        !s.eoimode,
    ensures
        ({
            let intid = (s.deliverable()->0).0;
            let i = intid as int;
            s.acknowledged().ended(intid as u64) == s.with_irq(
                i,
                Irq { active: false, pending: false, ..s.irqs[i] },
            )
        }),
{
    law_delivered_is_eligible(s);
    let intid = (s.deliverable()->0).0;
    let t = s.acknowledged().ended(intid as u64);
    assert(s.acknowledged().active_prio.drop_last() =~= s.active_prio);
    assert(t =~= s.with_irq(
        intid as int,
        Irq { active: false, pending: false, ..s.irqs[intid as int] },
    ));
}

/// An interrupt left in group 0 is never delivered.
pub proof fn law_group_0_is_silent(s: GicState)
    requires
        s.wf(),
    ensures
        s.deliverable() matches Some((intid, _)) ==> s.irqs[intid as int].group1,
{
    if s.deliverable() is Some {
        law_delivered_is_eligible(s);
    }
}

/// A read of a bitmap register shows, bit by bit, the interrupts of its word.
pub proof fn law_bitmap_read(s: GicState, word: int, op: BitOp, b: u32)
    requires
        b < 32,
    ensures
        bit_of(s.bits(word, op), b) == s.irqs[word * 32 + b].bit(op),
{
    lemma_pack_bits(Seq::new(32, |k: int| s.irqs[word * 32 + k].bit(op)));
}

/// SGIs are edge triggered from the start and stay so, and BPR1 stays in its
/// range: through every write to the region, every line that changes, every
/// acknowledgement and every end of an interrupt.
pub proof fn law_sgis_stay_edge(s: GicState, intid: u32, level: bool, offset: u64, size: u8, value: u64)
    requires
        s.settled(),
    ensures
        GicState::reset().settled(),
        s.mmio_written(offset, size, value).settled(),
        s.level_set(intid, level).settled(),
        s.sgi_sent(intid).settled(),
        s.sgi1r_written(value).settled(),
        s.acknowledged().settled(),
        s.deactivated(intid).settled(),
        s.ended(value).settled(),
{
}

proof fn lemma_prio_bits(value: u64, n: u64)
    requires
        n <= 32,
    ensures
        prio_bits(prio_stack(value, n as int)) == ((value & 0xFFFF_FFFF) >> n) << n,
    decreases 32 - n,
{
    if n < 32 {
        lemma_prio_bits(value, (n + 1) as u64);
        let above = prio_stack(value, n + 1);
        if value & (1u64 << n) != 0 {
            assert(above.push((INTID_SPURIOUS, (n * 8) as u8)).drop_last() =~= above);
        }
    }
    assert(((value & 0xFFFF_FFFF) >> 32u64) << 32u64 == 0 && (n < 32 ==> ((value & 0xFFFF_FFFF)
        >> n) << n == (if value & (1u64 << n) != 0 {
        (((value & 0xFFFF_FFFF) >> ((n + 1) as u64)) << ((n + 1) as u64)) | (1u64 << n)
    } else {
        ((value & 0xFFFF_FFFF) >> ((n + 1) as u64)) << ((n + 1) as u64)
    }))) by (bit_vector)
        requires
            n <= 32,
    ;
}

/// ICC_AP1R0_EL1 reads back the 32 bits that were written to it.
pub proof fn law_active_priorities_read_back(value: u64)
    ensures
        prio_bits(prio_stack(value, 0)) == value % 0x1_0000_0000,
{
    lemma_prio_bits(value, 0);
    assert(((value & 0xFFFF_FFFF) >> 0u64) << 0u64 == value % 0x1_0000_0000) by (bit_vector);
}

} // verus!
