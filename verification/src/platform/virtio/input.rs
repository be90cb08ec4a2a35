//! virtio-input: keyboard, tablet and touchscreen.
//!
//! Queues: 0 = events (device to driver, buffers of 8 bytes), 1 = status (driver
//! to device, for example the LEDs of the keyboard). No features.
//!
//! The configuration space is a window: the driver writes `select` and `subsel`
//! and reads `size` and the contents (name, serial, identifiers, bitmaps of the
//! properties and of the event types, ranges of the axes). The entries are data
//! ([`InputConfig`]); the profiles [`InputConfig::keyboard`],
//! [`InputConfig::tablet`] and [`InputConfig::multitouch`] show what the devices
//! of QEMU show.
//!
//! - With a `select`/`subsel` without an entry everything reads 0.
//! - Events injected before the driver is active are dropped.
//! - Events are delivered in whole reports (up to an `EV_SYN/SYN_REPORT`) and
//!   only if there are buffers for the whole report; a report without buffers
//!   waits (at most [`MAX_PENDING`] events, beyond them it is dropped and counted).
//! - The status queue records the events received (`EV_LED` updates
//!   [`VirtioInput::leds`]); the length in the used ring is 0.
use std::collections::VecDeque;
use vstd::prelude::*;
use vstd::utf8::encode_utf8;
use crate::bytes::{le16, le16_at, le16_bytes, le32, le32_at, le32_bytes, push_bytes, push_le16, push_le32, push_zeros, to_vec, zeroed, zeros};
use crate::platform::virtio::queue::{gathered, lemma_gathered_len, scattered, QueueError, Virtqueue};
use crate::platform::virtio::ram::{GuestRam, Mem};
use crate::platform::virtio::{read_config_bytes, ServiceCtx, VirtioDevice, Work, ID_INPUT, SERVICE_LIMIT};

verus! {

pub const CFG_UNSET: u8 = 0x00;
pub const CFG_ID_NAME: u8 = 0x01;
pub const CFG_ID_SERIAL: u8 = 0x02;
pub const CFG_ID_DEVIDS: u8 = 0x03;
pub const CFG_PROP_BITS: u8 = 0x10;
pub const CFG_EV_BITS: u8 = 0x11;
pub const CFG_ABS_INFO: u8 = 0x12;

// Types and codes of Linux events.
pub const EV_SYN: u16 = 0x00;
pub const EV_KEY: u16 = 0x01;
pub const EV_REL: u16 = 0x02;
pub const EV_ABS: u16 = 0x03;
pub const EV_MSC: u16 = 0x04;
pub const EV_LED: u16 = 0x11;
pub const EV_REP: u16 = 0x14;
pub const SYN_REPORT: u16 = 0;
pub const REL_WHEEL: u16 = 0x08;
pub const ABS_X: u16 = 0x00;
pub const ABS_Y: u16 = 0x01;
pub const ABS_MT_SLOT: u16 = 0x2f;
pub const ABS_MT_POSITION_X: u16 = 0x35;
pub const ABS_MT_POSITION_Y: u16 = 0x36;
pub const ABS_MT_TRACKING_ID: u16 = 0x39;
pub const BTN_LEFT: u16 = 0x110;
pub const BTN_RIGHT: u16 = 0x111;
pub const BTN_MIDDLE: u16 = 0x112;
pub const BTN_SIDE: u16 = 0x113;
pub const BTN_EXTRA: u16 = 0x114;
pub const BTN_TOUCH: u16 = 0x14a;
pub const BTN_GEAR_DOWN: u16 = 0x150;
pub const BTN_GEAR_UP: u16 = 0x151;
pub const LED_NUML: u16 = 0;
pub const LED_CAPSL: u16 = 1;
pub const LED_SCROLLL: u16 = 2;
pub const INPUT_PROP_DIRECT: u16 = 0x01;
/// `BUS_VIRTUAL` of Linux.
pub const BUS_VIRTUAL: u16 = 0x06;

/// Absolute coordinates of tablet and touchscreen: 0 to 0x7FFF, whatever the
/// resolution of the screen is.
pub const ABS_MAX_VALUE: u32 = 0x7FFF;
/// Slots of the touchscreen: 0 to 10.
pub const MT_SLOTS_MAX: u32 = 10;

/// Most events that wait for buffers of the driver.
pub const MAX_PENDING: usize = 4096;

pub const EVENT_LEN: usize = 8;

/// Type, code and value of an event.
#[derive(Clone, Copy, Debug, PartialEq, Eq, Structural)]
pub struct InputEvent {
    pub ty: u16,
    pub code: u16,
    pub value: u32,
}

impl InputEvent {
    pub fn new(ty: u16, code: u16, value: i32) -> (r: Self)
        ensures
            r == (InputEvent { ty, code, value: value as u32 }),
    {
        InputEvent { ty, code, value: value as u32 }
    }

    /// The end of a report.
    pub fn syn() -> (r: Self)
        ensures
            r == Self::end(),
    {
        InputEvent { ty: EV_SYN, code: SYN_REPORT, value: 0 }
    }

    pub open spec fn end() -> Self {
        InputEvent { ty: EV_SYN, code: SYN_REPORT, value: 0 }
    }

    /// The event ends a report.
    pub open spec fn ends(self) -> bool {
        self.ty == EV_SYN && self.code == SYN_REPORT
    }

    fn is_report(&self) -> (r: bool)
        ensures
            r == self.ends(),
    {
        self.ty == EV_SYN && self.code == SYN_REPORT
    }

    pub open spec fn bytes(self) -> Seq<u8> {
        le16_bytes(self.ty) + le16_bytes(self.code) + le32_bytes(self.value)
    }

    pub open spec fn of(b: Seq<u8>) -> Self {
        InputEvent { ty: le16_at(b, 0), code: le16_at(b, 2), value: le32_at(b, 4) }
    }

    pub fn to_bytes(self) -> (r: Vec<u8>)
        ensures
            r@ == self.bytes(),
    {
        let mut b: Vec<u8> = Vec::new();
        push_le16(&mut b, self.ty);
        push_le16(&mut b, self.code);
        push_le32(&mut b, self.value);
        assert(b@ =~= self.bytes());
        b
    }

    pub fn from_bytes(b: &[u8; 8]) -> (r: Self)
        ensures
            r == Self::of(b@),
    {
        InputEvent { ty: le16(b, 0), code: le16(b, 2), value: le32(b, 4) }
    }
}

/// An event read from the bytes it was written as is the same event.
pub proof fn law_event_round_trip(e: InputEvent)
    ensures
        InputEvent::of(e.bytes()) == e,
{
    crate::bytes::lemma_le16(e.ty);
    crate::bytes::lemma_le16(e.code);
    crate::bytes::lemma_le32(e.value);
    let b = e.bytes();
    assert(b[0] == le16_bytes(e.ty)[0] && b[1] == le16_bytes(e.ty)[1]);
    assert(b[2] == le16_bytes(e.code)[0] && b[3] == le16_bytes(e.code)[1]);
    assert forall|k: int| 0 <= k < 4 implies #[trigger] b[4 + k] == le32_bytes(e.value)[k] by {
    }
    assert(b[4] == le32_bytes(e.value)[0]);
    assert(b[5] == le32_bytes(e.value)[1]);
    assert(b[6] == le32_bytes(e.value)[2]);
    assert(b[7] == le32_bytes(e.value)[3]);
}

/// The range of an axis.
#[derive(Clone, Copy, Debug, Default, PartialEq, Eq, Structural)]
pub struct AbsInfo {
    pub min: u32,
    pub max: u32,
    pub fuzz: u32,
    pub flat: u32,
    pub res: u32,
}

/// An entry of the configuration space: (select, subsel) to contents.
#[derive(Clone, Debug, PartialEq, Eq)]
pub struct CfgEntry {
    pub select: u8,
    pub subsel: u8,
    pub data: Vec<u8>,
}

/// What a [`CfgEntry`] says.
#[verifier::ext_equal]
pub struct Entry {
    pub select: u8,
    pub subsel: u8,
    pub data: Seq<u8>,
}

impl View for CfgEntry {
    type V = Entry;

    open spec fn view(&self) -> Entry {
        Entry { select: self.select, subsel: self.subsel, data: self.data@ }
    }
}

/// The device as the driver sees it.
#[derive(Clone, Debug, PartialEq, Eq)]
pub struct InputConfig {
    pub entries: Vec<CfgEntry>,
}

pub open spec fn entries_view(s: Seq<CfgEntry>) -> Seq<Entry> {
    s.map_values(|e: CfgEntry| e@)
}

impl View for InputConfig {
    type V = Seq<Entry>;

    open spec fn view(&self) -> Seq<Entry> {
        entries_view(self.entries@)
    }
}

/// Bytes of a bitmap with the bits `codes`.
pub open spec fn bitmap_len(codes: Seq<u16>) -> nat
    decreases codes.len(),
{
    if codes.len() == 0 {
        0
    } else {
        let rest = bitmap_len(codes.drop_last());
        let n = (codes.last() / 8 + 1) as nat;
        if n > rest {
            n
        } else {
            rest
        }
    }
}

/// The bitmap with one more bit.
pub open spec fn mark(bits: Seq<u8>, c: u16) -> Seq<u8> {
    bits.update((c / 8) as int, bits[(c / 8) as int] | (1u8 << ((c % 8) as u8)))
}

/// The bitmap with all the bits of `codes`.
pub open spec fn marked(bits: Seq<u8>, codes: Seq<u16>) -> Seq<u8>
    decreases codes.len(),
{
    if codes.len() == 0 {
        bits
    } else {
        mark(marked(bits, codes.drop_last()), codes.last())
    }
}

/// A bitmap with the bits `codes`, as long as the byte of the last one.
pub open spec fn bitmap_of(codes: Seq<u16>) -> Seq<u8> {
    marked(zeros(bitmap_len(codes)), codes)
}

/// Bit `c` of a bitmap.
pub open spec fn bit_set(bits: Seq<u8>, c: u16) -> bool {
    c / 8 < bits.len() && bits[(c / 8) as int] & (1u8 << ((c % 8) as u8)) != 0
}

proof fn lemma_bitmap_len(codes: Seq<u16>)
    ensures
        forall|i: int| 0 <= i < codes.len() ==> (#[trigger] codes[i]) / 8 < bitmap_len(codes),
        forall|n: nat|
            (forall|i: int| 0 <= i < codes.len() ==> (#[trigger] codes[i]) / 8 < n)
                ==> #[trigger] at_most(bitmap_len(codes), n),
    decreases codes.len(),
{
    if codes.len() > 0 {
        let front = codes.drop_last();
        lemma_bitmap_len(front);
        assert forall|i: int| 0 <= i < codes.len() implies (#[trigger] codes[i]) / 8 < bitmap_len(
            codes,
        ) by {
            if i < codes.len() - 1 {
                assert(front[i] == codes[i]);
            }
        }
        assert forall|n: nat|
            (forall|i: int| 0 <= i < codes.len() ==> (#[trigger] codes[i]) / 8 < n) implies 
        #[trigger] at_most(bitmap_len(codes), n) by {
            assert forall|i: int| 0 <= i < front.len() implies (#[trigger] front[i]) / 8 < n by {
                assert(front[i] == codes[i]);
            }
            assert(at_most(bitmap_len(front), n));
            assert(codes[codes.len() - 1] / 8 < n);
        }
    }
}

pub open spec fn at_most(a: nat, n: nat) -> bool {
    a <= n
}

proof fn lemma_marked_len(bits: Seq<u8>, codes: Seq<u16>)
    requires
        forall|i: int| 0 <= i < codes.len() ==> (#[trigger] codes[i]) / 8 < bits.len(),
    ensures
        marked(bits, codes).len() == bits.len(),
    decreases codes.len(),
{
    if codes.len() > 0 {
        assert forall|i: int| 0 <= i < codes.len() - 1 implies (#[trigger] codes.drop_last()[i]) / 8
            < bits.len() by {
            assert(codes.drop_last()[i] == codes[i]);
        }
        lemma_marked_len(bits, codes.drop_last());
    }
}

proof fn lemma_mark(x: u8, i: u8, j: u8)
    by (bit_vector)
    requires
        i < 8,
        j < 8,
    ensures
        ((x | (1u8 << i)) & (1u8 << j) != 0) == (i == j || x & (1u8 << j) != 0),
        0u8 & (1u8 << j) == 0,
{
}

proof fn lemma_marked_bits(n: nat, codes: Seq<u16>, c: u16)
    requires
        forall|i: int| 0 <= i < codes.len() ==> (#[trigger] codes[i]) / 8 < n,
    ensures
        bit_set(marked(zeros(n), codes), c) == codes.contains(c),
    decreases codes.len(),
{
    lemma_mark(0, (c % 8) as u8, (c % 8) as u8);
    if codes.len() > 0 {
        let front = codes.drop_last();
        assert forall|i: int| 0 <= i < front.len() implies (#[trigger] front[i]) / 8 < n by {
            assert(front[i] == codes[i]);
        }
        lemma_marked_bits(n, front, c);
        lemma_marked_len(zeros(n), front);
        let bits = marked(zeros(n), front);
        let d = codes.last();
        assert(d == codes[codes.len() - 1]);
        if d / 8 == c / 8 {
            lemma_mark(bits[(c / 8) as int], (d % 8) as u8, (c % 8) as u8);
        }
        assert(codes.contains(c) <==> (front.contains(c) || c == d)) by {
            if codes.contains(c) {
                let i = choose|i: int| 0 <= i < codes.len() && codes[i] == c;
                if i < codes.len() - 1 {
                    assert(front[i] == c);
                }
            }
            if front.contains(c) {
                let i = choose|i: int| 0 <= i < front.len() && front[i] == c;
                assert(codes[i] == c);
            }
        }
    }
}

/// A bitmap has exactly the bits that it was made from.
pub proof fn law_bitmap_has_its_codes(codes: Seq<u16>, c: u16)
    ensures
        bit_set(bitmap_of(codes), c) == codes.contains(c),
{
    lemma_bitmap_len(codes);
    lemma_marked_bits(bitmap_len(codes), codes, c);
}

fn bitmap(codes: &[u16]) -> (r: Vec<u8>)
    ensures
        r@ == bitmap_of(codes@),
{
    let mut len: usize = 0;
    let mut i: usize = 0;
    assert(codes@.take(0) =~= Seq::<u16>::empty());
    while i < codes.len()
        invariant
            i <= codes@.len(),
            len == bitmap_len(codes@.take(i as int)),
        decreases codes@.len() - i,
    {
        assert(codes@.take(i + 1).drop_last() =~= codes@.take(i as int));
        let n: usize = (codes[i] / 8) as usize + 1;
        if n > len {
            len = n;
        }
        i += 1;
    }
    assert(codes@.take(i as int) =~= codes@);
    proof {
        lemma_bitmap_len(codes@);
    }
    let mut b: Vec<u8> = zeroed(len);
    let mut k: usize = 0;
    while k < codes.len()
        invariant
            k <= codes@.len(),
            len == bitmap_len(codes@),
            b@.len() == len,
            forall|i: int| 0 <= i < codes@.len() ==> (#[trigger] codes@[i]) / 8 < len,
            b@ == marked(zeros(len as nat), codes@.take(k as int)),
        decreases codes@.len() - k,
    {
        assert(codes@.take(k + 1).drop_last() =~= codes@.take(k as int));
        let c: u16 = codes[k];
        let at: usize = (c / 8) as usize;
        let bit: u8 = 1u8 << ((c % 8) as u8);
        b.set(at, b[at] | bit);
        k += 1;
    }
    assert(codes@.take(k as int) =~= codes@);
    b
}

/// Keys of the keyboard, in closed ranges: the Linux codes that the keyboard of
/// QEMU declares, 159 keys.
pub const KEYBOARD_KEY_RANGES: [(u16, u16); 13] = [
    (0x01, 0x53),
    (0x56, 0x59),
    (0x5b, 0x5e),
    (0x60, 0x6f),
    (0x71, 0x75),
    (0x77, 0x77),
    (0x79, 0x8c),
    (0x8e, 0x8f),
    (0x9b, 0x9f),
    (0xa3, 0xa6),
    (0xac, 0xad),
    (0xb7, 0xc2),
    (0xe2, 0xe2),
];

/// Buttons of tablet and touchscreen.
pub const POINTER_BUTTONS: [u16; 8] = [
    BTN_LEFT,
    BTN_RIGHT,
    BTN_MIDDLE,
    BTN_GEAR_UP,
    BTN_GEAR_DOWN,
    BTN_SIDE,
    BTN_EXTRA,
    BTN_TOUCH,
];

/// The codes of a list of closed ranges.
pub open spec fn expanded(ranges: Seq<(u16, u16)>) -> Seq<u16>
    decreases ranges.len(),
{
    if ranges.len() == 0 {
        Seq::empty()
    } else {
        let (a, b) = ranges.last();
        expanded(ranges.drop_last()) + Seq::new(
            if a <= b {
                (b - a + 1) as nat
            } else {
                0
            },
            |i: int| (a + i) as u16,
        )
    }
}

/// The keys of the keyboard.
fn keyboard_keys() -> (r: Vec<u16>)
    ensures
        r@ == expanded(KEYBOARD_KEY_RANGES@),
        forall|i: int| 0 <= i < r@.len() ==> #[trigger] r@[i] < 1024,
{
    let ranges: [(u16, u16); 13] = KEYBOARD_KEY_RANGES;
    let mut r: Vec<u16> = Vec::new();
    let mut i: usize = 0;
    assert(ranges@.take(0) =~= Seq::<(u16, u16)>::empty());
    while i < 13
        invariant
            i <= 13,
            ranges@ == KEYBOARD_KEY_RANGES@,
            ranges@.len() == 13,
            forall|k: int| 0 <= k < 13 ==> (#[trigger] ranges@[k]).1 < 1024,
            r@ == expanded(ranges@.take(i as int)),
            forall|i: int| 0 <= i < r@.len() ==> #[trigger] r@[i] < 1024,
        decreases 13 - i,
    {
        let (a, b) = ranges[i];
        let ghost start = r@;
        let mut c: u16 = a;
        while c <= b
            invariant
                b < 1024,
                a <= c || c == a,
                c <= b + 1 || c == a,
                r@ =~= start + Seq::new((c - a) as nat, |i: int| (a + i) as u16),
                forall|i: int| 0 <= i < r@.len() ==> #[trigger] r@[i] < 1024,
            decreases b + 1 - c,
        {
            r.push(c);
            c += 1;
        }
        proof {
            assert(ranges@.take(i + 1).drop_last() =~= ranges@.take(i as int));
            assert(r@ =~= expanded(ranges@.take(i + 1)));
        }
        i += 1;
    }
    assert(ranges@.take(13) =~= ranges@);
    r
}

// ---- The entries ----------------------------------------------------------------

/// The entries without the one for (select, subsel).
pub open spec fn unset(s: Seq<Entry>, select: u8, subsel: u8) -> Seq<Entry>
    decreases s.len(),
{
    if s.len() == 0 {
        Seq::empty()
    } else {
        let front = unset(s.drop_last(), select, subsel);
        if s.last().select == select && s.last().subsel == subsel {
            front
        } else {
            front.push(s.last())
        }
    }
}

/// The entries with `data` as the contents of (select, subsel).
pub open spec fn entry_set(s: Seq<Entry>, select: u8, subsel: u8, data: Seq<u8>) -> Seq<Entry> {
    unset(s, select, subsel).push(Entry { select, subsel, data })
}

/// The contents of (select, subsel).
pub open spec fn entry_get(s: Seq<Entry>, select: u8, subsel: u8) -> Option<Seq<u8>>
    decreases s.len(),
{
    if s.len() == 0 {
        None
    } else if s[0].select == select && s[0].subsel == subsel {
        Some(s[0].data)
    } else {
        entry_get(s.skip(1), select, subsel)
    }
}

/// At most the first `n` bytes.
pub open spec fn cut(s: Seq<u8>, n: nat) -> Seq<u8> {
    if s.len() <= n {
        s
    } else {
        s.take(n as int)
    }
}

/// A device with only its name.
pub open spec fn named(name: Seq<char>) -> Seq<Entry> {
    entry_set(Seq::empty(), CFG_ID_NAME, 0, cut(encode_utf8(name) + seq![0u8], 128))
}

pub open spec fn with_serial(s: Seq<Entry>, serial: Seq<char>) -> Seq<Entry> {
    entry_set(s, CFG_ID_SERIAL, 0, cut(encode_utf8(serial), 127))
}

pub open spec fn with_devids(
    s: Seq<Entry>,
    bustype: u16,
    vendor: u16,
    product: u16,
    version: u16,
) -> Seq<Entry> {
    entry_set(
        s,
        CFG_ID_DEVIDS,
        0,
        le16_bytes(bustype) + le16_bytes(vendor) + le16_bytes(product) + le16_bytes(version),
    )
}

pub open spec fn with_props(s: Seq<Entry>, props: Seq<u16>) -> Seq<Entry> {
    entry_set(s, CFG_PROP_BITS, 0, bitmap_of(props))
}

/// `s` filled up with zeros to `n` bytes.
pub open spec fn filled(s: Seq<u8>, n: nat) -> Seq<u8> {
    if s.len() < n {
        s + zeros((n - s.len()) as nat)
    } else {
        s
    }
}

pub open spec fn with_events(s: Seq<Entry>, ty: u16, codes: Seq<u16>, min_len: nat) -> Seq<Entry> {
    entry_set(s, CFG_EV_BITS, ty as u8, filled(bitmap_of(codes), min_len))
}

pub open spec fn with_abs(s: Seq<Entry>, axis: u16, info: AbsInfo) -> Seq<Entry> {
    entry_set(
        s,
        CFG_ABS_INFO,
        axis as u8,
        le32_bytes(info.min) + le32_bytes(info.max) + le32_bytes(info.fuzz) + le32_bytes(info.flat)
            + le32_bytes(info.res),
    )
}

/// An axis from 0 to `max`.
pub open spec fn axis_to(max: u32) -> AbsInfo {
    AbsInfo { min: 0, max, fuzz: 0, flat: 0, res: 0 }
}

pub open spec fn keyboard_entries() -> Seq<Entry> {
    let s = named("QEMU Virtio Keyboard"@);
    let s = with_devids(s, BUS_VIRTUAL, 0x0627, 0x0001, 0x0001);
    let s = with_events(s, EV_REP, Seq::empty(), 1);
    let s = with_events(s, EV_LED, seq![LED_NUML, LED_CAPSL, LED_SCROLLL], 1);
    with_events(s, EV_KEY, expanded(KEYBOARD_KEY_RANGES@), 0)
}

pub open spec fn tablet_entries() -> Seq<Entry> {
    let s = named("QEMU Virtio Tablet"@);
    let s = with_devids(s, BUS_VIRTUAL, 0x0627, 0x0003, 0x0002);
    let s = with_events(s, EV_ABS, seq![ABS_X, ABS_Y], 1);
    let s = with_events(s, EV_REL, seq![REL_WHEEL], 2);
    let s = with_abs(s, ABS_X, axis_to(ABS_MAX_VALUE));
    let s = with_abs(s, ABS_Y, axis_to(ABS_MAX_VALUE));
    with_events(s, EV_KEY, POINTER_BUTTONS@, 0)
}

pub open spec fn multitouch_entries() -> Seq<Entry> {
    let s = named("QEMU Virtio MultiTouch"@);
    let s = with_devids(s, BUS_VIRTUAL, 0x0627, 0x0003, 0x0001);
    let s = with_abs(s, ABS_MT_SLOT, axis_to(MT_SLOTS_MAX));
    let s = with_abs(s, ABS_MT_TRACKING_ID, axis_to(MT_SLOTS_MAX));
    let s = with_abs(s, ABS_MT_POSITION_X, axis_to(ABS_MAX_VALUE));
    let s = with_abs(s, ABS_MT_POSITION_Y, axis_to(ABS_MAX_VALUE));
    let s = with_events(s, EV_KEY, POINTER_BUTTONS@, 0);
    let s = with_props(s, seq![INPUT_PROP_DIRECT]);
    with_events(
        s,
        EV_ABS,
        seq![ABS_MT_SLOT, ABS_MT_TRACKING_ID, ABS_MT_POSITION_X, ABS_MT_POSITION_Y],
        0,
    )
}

/// Every entry fits in the window (128 bytes).
pub open spec fn entries_fit(s: Seq<Entry>) -> bool {
    forall|i: int| 0 <= i < s.len() ==> (#[trigger] s[i]).data.len() <= 128
}

proof fn lemma_unset_fits(s: Seq<Entry>, select: u8, subsel: u8)
    ensures
        entries_fit(s) ==> entries_fit(unset(s, select, subsel)),
    decreases s.len(),
{
    if s.len() > 0 {
        lemma_unset_fits(s.drop_last(), select, subsel);
        if entries_fit(s) {
            assert forall|i: int| 0 <= i < s.len() - 1 implies (#[trigger] s.drop_last()[i]).data.len()
                <= 128 by {
                assert(s.drop_last()[i] == s[i]);
            }
            assert(s[s.len() - 1].data.len() <= 128);
        }
    }
}

proof fn lemma_bitmap_fits(codes: Seq<u16>)
    requires
        forall|i: int| 0 <= i < codes.len() ==> #[trigger] codes[i] < 1024,
    ensures
        bitmap_of(codes).len() <= 128,
{
    lemma_bitmap_len(codes);
    assert(at_most(bitmap_len(codes), 128));
    lemma_marked_len(zeros(bitmap_len(codes)), codes);
}

/// What was set is found, and the other entries stay as they were.
pub proof fn law_entry_is_found(
    s: Seq<Entry>,
    select: u8,
    subsel: u8,
    data: Seq<u8>,
    sel2: u8,
    sub2: u8,
)
    ensures
        entry_get(entry_set(s, select, subsel, data), sel2, sub2) == (if sel2 == select && sub2
            == subsel {
            Some(data)
        } else {
            entry_get(s, sel2, sub2)
        }),
{
    lemma_unset(s, select, subsel, sel2, sub2);
    lemma_get_push(unset(s, select, subsel), Entry { select, subsel, data }, sel2, sub2);
}

proof fn lemma_get_push(s: Seq<Entry>, e: Entry, sel2: u8, sub2: u8)
    ensures
        entry_get(s.push(e), sel2, sub2) == (match entry_get(s, sel2, sub2) {
            Some(d) => Some(d),
            None => if e.select == sel2 && e.subsel == sub2 {
                Some(e.data)
            } else {
                None
            },
        }),
    decreases s.len(),
{
    if s.len() == 0 {
        assert(s.push(e).skip(1) =~= s);
        assert(entry_get(s.push(e).skip(1), sel2, sub2) is None);
    } else {
        assert(s.push(e).skip(1) =~= s.skip(1).push(e));
        lemma_get_push(s.skip(1), e, sel2, sub2);
    }
}

proof fn lemma_unset(s: Seq<Entry>, select: u8, subsel: u8, sel2: u8, sub2: u8)
    ensures
        entry_get(unset(s, select, subsel), sel2, sub2) == (if sel2 == select && sub2 == subsel {
            None
        } else {
            entry_get(s, sel2, sub2)
        }),
    decreases s.len(),
{
    if s.len() > 0 {
        let front = s.drop_last();
        lemma_unset(front, select, subsel, sel2, sub2);
        lemma_get_push(front, s.last(), sel2, sub2);
        lemma_get_push(unset(front, select, subsel), s.last(), sel2, sub2);
        assert(front.push(s.last()) =~= s);
    }
}

impl InputConfig {
    pub open spec fn wf(self) -> bool {
        entries_fit(self@)
    }

    /// A device with only its name.
    pub fn new(name: &str) -> (r: Self)
        ensures
            r@ == named(name@),
            r.wf(),
    {
        let mut b: Vec<u8> = to_vec(name.as_bytes());
        b.push(0);
        assert(b@ =~= encode_utf8(name@) + seq![0u8]);
        if b.len() > 128 {
            b.truncate(128);
        }
        let mut c = InputConfig { entries: Vec::new() };
        assert(c@ =~= Seq::<Entry>::empty());
        c.set(CFG_ID_NAME, 0, b);
        c
    }

    fn set(&mut self, select: u8, subsel: u8, data: Vec<u8>)
        ensures
            final(self)@ == entry_set(old(self)@, select, subsel, data@),
            old(self).wf() && data@.len() <= 128 ==> final(self).wf(),
    {
        let mut kept: Vec<CfgEntry> = Vec::new();
        let mut old_entries: Vec<CfgEntry> = Vec::new();
        std::mem::swap(&mut old_entries, &mut self.entries);
        let ghost all = entries_view(old_entries@);
        let mut i: usize = 0;
        assert(all.take(0) =~= Seq::<Entry>::empty());
        assert(entries_view(kept@) =~= Seq::<Entry>::empty());
        while i < old_entries.len()
            invariant
                i <= old_entries@.len(),
                all == entries_view(old_entries@),
                entries_view(kept@) == unset(all.take(i as int), select, subsel),
            decreases old_entries@.len() - i,
        {
            assert(all.take(i + 1).drop_last() =~= all.take(i as int));
            let e: &CfgEntry = &old_entries[i];
            if e.select != select || e.subsel != subsel {
                let copy = CfgEntry {
                    select: e.select,
                    subsel: e.subsel,
                    data: to_vec(e.data.as_slice()),
                };
                assert(copy@ =~= all[i as int]);
                let ghost before = entries_view(kept@);
                kept.push(copy);
                assert(entries_view(kept@) =~= before.push(copy@));
            }
            i += 1;
        }
        assert(all.take(i as int) =~= all);
        let ghost before = entries_view(kept@);
        let ghost last = Entry { select, subsel, data: data@ };
        kept.push(CfgEntry { select, subsel, data });
        proof {
            assert(entries_view(kept@) =~= before.push(last));
            lemma_unset_fits(all, select, subsel);
        }
        self.entries = kept;
    }

    fn get(&self, select: u8, subsel: u8) -> (r: Option<&CfgEntry>)
        ensures
            match r {
                Some(e) => entry_get(self@, select, subsel) == Some(e@.data) && e.select == select
                    && e.subsel == subsel && self@.contains(e@),
                None => entry_get(self@, select, subsel) is None,
            },
    {
        let mut i: usize = 0;
        assert(self@.skip(0) =~= self@);
        while i < self.entries.len()
            invariant
                i <= self.entries@.len(),
                entry_get(self@, select, subsel) == entry_get(self@.skip(i as int), select, subsel),
            decreases self.entries@.len() - i,
        {
            assert(self@.skip(i as int)[0] == self@[i as int]);
            assert(self@.skip(i as int).skip(1) =~= self@.skip(i + 1));
            if self.entries[i].select == select && self.entries[i].subsel == subsel {
                assert(self@[i as int] == self.entries@[i as int]@);
                return Some(&self.entries[i]);
            }
            i += 1;
        }
        None
    }

    /// Serial number, without a terminator.
    pub fn serial(self, serial: &str) -> (r: Self)
        ensures
            r@ == with_serial(self@, serial@),
            self.wf() ==> r.wf(),
    {
        let mut c = self;
        let mut b: Vec<u8> = to_vec(serial.as_bytes());
        if b.len() > 127 {
            b.truncate(127);
        }
        c.set(CFG_ID_SERIAL, 0, b);
        c
    }

    /// Identifiers.
    pub fn devids(self, bustype: u16, vendor: u16, product: u16, version: u16) -> (r: Self)
        ensures
            r@ == with_devids(self@, bustype, vendor, product, version),
            self.wf() ==> r.wf(),
    {
        let mut c = self;
        let mut d: Vec<u8> = Vec::new();
        push_le16(&mut d, bustype);
        push_le16(&mut d, vendor);
        push_le16(&mut d, product);
        push_le16(&mut d, version);
        assert(d@ =~= le16_bytes(bustype) + le16_bytes(vendor) + le16_bytes(product) + le16_bytes(
            version,
        ));
        c.set(CFG_ID_DEVIDS, 0, d);
        c
    }

    /// Properties, for example [`INPUT_PROP_DIRECT`].
    pub fn props(self, props: &[u16]) -> (r: Self)
        ensures
            r@ == with_props(self@, props@),
            self.wf() && bitmap_of(props@).len() <= 128 ==> r.wf(),
    {
        let mut c = self;
        c.set(CFG_PROP_BITS, 0, bitmap(props));
        c
    }

    /// Codes of the type `ty`. An empty list with `min_len` > 0 declares the type
    /// without codes.
    pub fn events(self, ty: u16, codes: &[u16], min_len: usize) -> (r: Self)
        ensures
            r@ == with_events(self@, ty, codes@, min_len as nat),
            self.wf() && bitmap_of(codes@).len() <= 128 && min_len <= 128 ==> r.wf(),
    {
        let mut c = self;
        let mut b: Vec<u8> = bitmap(codes);
        if b.len() < min_len {
            let more: usize = min_len - b.len();
            push_zeros(&mut b, more);
        }
        c.set(CFG_EV_BITS, ty as u8, b);
        c
    }

    /// Range of the absolute axis `axis`.
    pub fn abs(self, axis: u16, info: AbsInfo) -> (r: Self)
        ensures
            r@ == with_abs(self@, axis, info),
            self.wf() ==> r.wf(),
    {
        let mut c = self;
        let mut d: Vec<u8> = Vec::new();
        push_le32(&mut d, info.min);
        push_le32(&mut d, info.max);
        push_le32(&mut d, info.fuzz);
        push_le32(&mut d, info.flat);
        push_le32(&mut d, info.res);
        assert(d@ =~= le32_bytes(info.min) + le32_bytes(info.max) + le32_bytes(info.fuzz)
            + le32_bytes(info.flat) + le32_bytes(info.res));
        c.set(CFG_ABS_INFO, axis as u8, d);
        c
    }

    fn list(codes: &[u16]) -> (r: &[u16])
        requires
            forall|i: int| 0 <= i < codes@.len() ==> #[trigger] codes@[i] < 1024,
        ensures
            r@ == codes@,
            bitmap_of(r@).len() <= 128,
    {
        proof {
            lemma_bitmap_fits(codes@);
        }
        codes
    }

    /// The keyboard of QEMU.
    pub fn keyboard() -> (r: Self)
        ensures
            r@ == keyboard_entries(),
            r.wf(),
    {
        let none: [u16; 0] = [];
        let leds: [u16; 3] = [LED_NUML, LED_CAPSL, LED_SCROLLL];
        let keys: Vec<u16> = keyboard_keys();
        assert(none@ =~= Seq::<u16>::empty());
        assert(leds@ =~= seq![LED_NUML, LED_CAPSL, LED_SCROLLL]);
        Self::new("QEMU Virtio Keyboard").devids(BUS_VIRTUAL, 0x0627, 0x0001, 0x0001).events(
            EV_REP,
            Self::list(&none),
            1,
        ).events(EV_LED, Self::list(&leds), 1).events(EV_KEY, Self::list(keys.as_slice()), 0)
    }

    /// The tablet of QEMU (with the wheel): absolute pointer with buttons.
    pub fn tablet() -> (r: Self)
        ensures
            r@ == tablet_entries(),
            r.wf(),
    {
        let axis = AbsInfo { min: 0, max: ABS_MAX_VALUE, fuzz: 0, flat: 0, res: 0 };
        let axes: [u16; 2] = [ABS_X, ABS_Y];
        let wheel: [u16; 1] = [REL_WHEEL];
        let buttons: [u16; 8] = POINTER_BUTTONS;
        assert(axes@ =~= seq![ABS_X, ABS_Y]);
        assert(wheel@ =~= seq![REL_WHEEL]);
        Self::new("QEMU Virtio Tablet").devids(BUS_VIRTUAL, 0x0627, 0x0003, 0x0002).events(
            EV_ABS,
            Self::list(&axes),
            1,
        ).events(EV_REL, Self::list(&wheel), 2).abs(ABS_X, axis).abs(ABS_Y, axis).events(
            EV_KEY,
            Self::list(&buttons),
            0,
        )
    }

    /// The touchscreen of QEMU: direct, with several contacts (slots and
    /// tracking ids).
    pub fn multitouch() -> (r: Self)
        ensures
            r@ == multitouch_entries(),
            r.wf(),
    {
        let axis = AbsInfo { min: 0, max: ABS_MAX_VALUE, fuzz: 0, flat: 0, res: 0 };
        let slots = AbsInfo { min: 0, max: MT_SLOTS_MAX, fuzz: 0, flat: 0, res: 0 };
        let axes: [u16; 4] = [ABS_MT_SLOT, ABS_MT_TRACKING_ID, ABS_MT_POSITION_X, ABS_MT_POSITION_Y];
        let direct: [u16; 1] = [INPUT_PROP_DIRECT];
        let buttons: [u16; 8] = POINTER_BUTTONS;
        assert(axes@ =~= seq![
            ABS_MT_SLOT,
            ABS_MT_TRACKING_ID,
            ABS_MT_POSITION_X,
            ABS_MT_POSITION_Y,
        ]);
        assert(direct@ =~= seq![INPUT_PROP_DIRECT]);
        Self::new("QEMU Virtio MultiTouch").devids(BUS_VIRTUAL, 0x0627, 0x0003, 0x0001).abs(
            ABS_MT_SLOT,
            slots,
        ).abs(ABS_MT_TRACKING_ID, slots).abs(ABS_MT_POSITION_X, axis).abs(
            ABS_MT_POSITION_Y,
            axis,
        ).events(EV_KEY, Self::list(&buttons), 0).props(Self::list(&direct)).events(
            EV_ABS,
            Self::list(&axes),
            0,
        )
    }
}

// ---- The device -----------------------------------------------------------------

pub struct VirtioInput {
    pub config: InputConfig,
    pub select: u8,
    pub subsel: u8,
    /// The driver has finished its start (first service after DRIVER_OK) and
    /// there was no reset.
    pub active: bool,
    pub pending: VecDeque<InputEvent>,
    /// Drop everything up to the next SYN_REPORT (report cut by the limit).
    pub discarding: bool,
    pub dropped: u64,
    pub leds: u32,
    pub status: Vec<InputEvent>,
}

/// What a [`VirtioInput`] holds.
#[verifier::ext_equal]
pub struct Input {
    pub entries: Seq<Entry>,
    pub select: u8,
    pub subsel: u8,
    pub active: bool,
    pub pending: Seq<InputEvent>,
    pub discarding: bool,
    pub dropped: u64,
    pub leds: u32,
    pub status: Seq<InputEvent>,
}

impl View for VirtioInput {
    type V = Input;

    open spec fn view(&self) -> Input {
        Input {
            entries: self.config@,
            select: self.select,
            subsel: self.subsel,
            active: self.active,
            pending: self.pending@,
            discarding: self.discarding,
            dropped: self.dropped,
            leds: self.leds,
            status: self.status@,
        }
    }
}

/// How many events of the first report wait, its end with them; 0 if no whole
/// report waits.
pub open spec fn report_len(pending: Seq<InputEvent>) -> nat
    decreases pending.len(),
{
    if pending.len() == 0 {
        0
    } else if pending[0].ends() {
        1
    } else {
        let rest = report_len(pending.skip(1));
        if rest == 0 {
            0
        } else {
            rest + 1
        }
    }
}

/// The LEDs after an event of the status queue.
pub open spec fn led_set(leds: u32, e: InputEvent) -> u32 {
    if e.ty == EV_LED && e.code < 32 {
        if e.value != 0 {
            leds | (1u32 << (e.code as u32))
        } else {
            leds & !(1u32 << (e.code as u32))
        }
    } else {
        leds
    }
}

/// The events of a report go into the chains of the queue.
pub open spec fn report_written(q: Virtqueue, m: Mem, events: Seq<InputEvent>, i: nat) -> (
    Virtqueue,
    Mem,
    Result<(), QueueError>,
)
    decreases events.len() - i,
{
    if i >= events.len() {
        (q, m, Ok(()))
    } else {
        let (q1, m1, next) = q.popped(m);
        match next {
            Err(e) => (q1, m1, Err(e)),
            Ok(None) => (q1, m1, Ok(())),
            Ok(Some(c)) => {
                let (m2, r2) = scattered(m1, c.writable, 0, events[i as int].bytes());
                match r2 {
                    Err(e) => (q1, m2, Err(QueueError::Ram(e))),
                    Ok(n) => {
                        let (q3, m3, r3) = q1.returned(m2, c.head, n as u32);
                        match r3 {
                            Err(e) => (q3, m3, Err(QueueError::Ram(e))),
                            Ok(_) => report_written(q3, m3, events, i + 1),
                        }
                    },
                }
            },
        }
    }
}

impl Input {
    /// The events after the last end of a report are given up.
    pub open spec fn trimmed(self) -> Input
        decreases self.pending.len(),
    {
        if self.pending.len() == 0 || self.pending.last().ends() {
            self
        } else {
            Input {
                pending: self.pending.drop_last(),
                dropped: self.dropped.wrapping_add(1),
                ..self
            }.trimmed()
        }
    }

    /// One event of the host.
    pub open spec fn took(self, e: InputEvent) -> Input {
        if !self.active {
            Input { dropped: self.dropped.wrapping_add(1), ..self }
        } else if self.discarding || self.pending.len() >= MAX_PENDING {
            let s = if self.discarding {
                self
            } else {
                self.trimmed()
            };
            Input { discarding: !e.ends(), dropped: s.dropped.wrapping_add(1), ..s }
        } else {
            Input { pending: self.pending.push(e), ..self }
        }
    }

    /// Events of the host, one after another.
    pub open spec fn injected(self, events: Seq<InputEvent>) -> Input
        decreases events.len(),
    {
        if events.len() == 0 {
            self
        } else {
            self.injected(events.drop_last()).took(events.last())
        }
    }

    /// The window of the configuration space.
    pub open spec fn window(self) -> Seq<u8> {
        match entry_get(self.entries, self.select, self.subsel) {
            Some(d) => seq![self.select, self.subsel, d.len() as u8] + zeros(5) + d + zeros(
                (128 - d.len()) as nat,
            ),
            None => zeros(136),
        }
    }

    /// A write of `data` at `offset` of the configuration space.
    pub open spec fn chosen(self, offset: u64, data: Seq<u8>) -> Input {
        Input {
            select: if offset == 0 && data.len() > 0 {
                data[0]
            } else {
                self.select
            },
            subsel: if offset <= 1 && data.len() > 1 - offset {
                data[1 - offset]
            } else {
                self.subsel
            },
            ..self
        }
    }

    pub open spec fn was_reset(self) -> Input {
        Input {
            select: 0,
            subsel: 0,
            active: false,
            discarding: false,
            dropped: self.dropped.wrapping_add(self.pending.len() as u64),
            pending: Seq::empty(),
            ..self
        }
    }

    /// The chains of the status queue are recorded.
    pub open spec fn heard(self, q: Virtqueue, m: Mem, fuel: nat) -> (
        Input,
        Virtqueue,
        Mem,
        Result<(), QueueError>,
    )
        decreases fuel,
    {
        if fuel == 0 {
            (self, q, m, Ok(()))
        } else {
            let (q1, m1, next) = q.popped(m);
            match next {
                Err(e) => (self, q1, m1, Err(e)),
                Ok(None) => (self, q1, m1, Ok(())),
                Ok(Some(c)) => match gathered(m1, c.readable, 0, 8) {
                    Err(e) => (self, q1, m1, Err(QueueError::Ram(e))),
                    Ok(d) => {
                        let e = InputEvent::of(d + zeros((8 - d.len()) as nat));
                        let s2 = Input {
                            leds: led_set(self.leds, e),
                            status: self.status.push(e),
                            ..self
                        };
                        let (q3, m3, r3) = q1.returned(m1, c.head, 0);
                        match r3 {
                            Err(e) => (s2, q3, m3, Err(QueueError::Ram(e))),
                            Ok(_) => s2.heard(q3, m3, (fuel - 1) as nat),
                        }
                    },
                },
            }
        }
    }

    /// Whole reports go to the driver while it has buffers for them.
    pub open spec fn delivered(self, q: Virtqueue, m: Mem, fuel: nat) -> (
        Input,
        Virtqueue,
        Mem,
        Result<(), QueueError>,
    )
        decreases fuel,
    {
        let n = report_len(self.pending);
        if fuel == 0 || n == 0 {
            (self, q, m, Ok(()))
        } else {
            match q.waiting(m) {
                Err(e) => (self, q, m, Err(e)),
                Ok(free) => if free < n {
                    (self, q, m, Ok(()))
                } else {
                    let s2 = Input { pending: self.pending.skip(n as int), ..self };
                    let (q2, m2, r2) = report_written(q, m, self.pending.take(n as int), 0);
                    if r2 is Err {
                        (s2, q2, m2, r2)
                    } else {
                        s2.delivered(q2, m2, (fuel - 1) as nat)
                    }
                },
            }
        }
    }

    /// One service: the status queue first, the events after it.
    pub open spec fn served(self, w: Work) -> (Input, Work, Result<(), QueueError>) {
        let s0 = Input { active: true, ..self };
        let (s1, sq, m1, r1) = s0.heard(w.queues[1], w.mem, SERVICE_LIMIT as nat);
        let w1 = Work { queues: w.queues.update(1, sq), mem: m1, ..w };
        if r1 is Err {
            (s1, w1, r1)
        } else {
            let (s2, eq, m2, r2) = s1.delivered(w1.queues[0], m1, SERVICE_LIMIT as nat);
            (s2, Work { queues: w1.queues.update(0, eq), mem: m2, ..w1 }, r2)
        }
    }
}

/// The events of a key with its end of report.
pub open spec fn key_events(code: u16, down: bool) -> Seq<InputEvent> {
    seq![
        InputEvent {
            ty: EV_KEY,
            code,
            value: if down {
                1
            } else {
                0
            },
        },
        InputEvent::end(),
    ]
}

/// The events of a position of the tablet.
pub open spec fn move_events(x: u32, y: u32) -> Seq<InputEvent> {
    seq![
        InputEvent { ty: EV_ABS, code: ABS_X, value: x },
        InputEvent { ty: EV_ABS, code: ABS_Y, value: y },
        InputEvent::end(),
    ]
}

/// The events of a contact of the touchscreen.
pub open spec fn touch_events(slot: u32, pos: Option<(u32, u32)>) -> Seq<InputEvent> {
    match pos {
        Some((x, y)) => seq![
            InputEvent { ty: EV_ABS, code: ABS_MT_SLOT, value: slot },
            InputEvent { ty: EV_ABS, code: ABS_MT_TRACKING_ID, value: slot },
            InputEvent { ty: EV_ABS, code: ABS_MT_POSITION_X, value: x },
            InputEvent { ty: EV_ABS, code: ABS_MT_POSITION_Y, value: y },
            InputEvent { ty: EV_KEY, code: BTN_TOUCH, value: 1 },
            InputEvent::end(),
        ],
        None => seq![
            InputEvent { ty: EV_ABS, code: ABS_MT_SLOT, value: slot },
            InputEvent { ty: EV_ABS, code: ABS_MT_TRACKING_ID, value: 0xFFFF_FFFF },
            InputEvent { ty: EV_KEY, code: BTN_TOUCH, value: 0 },
            InputEvent::end(),
        ],
    }
}

impl VirtioInput {
    pub open spec fn wf(self) -> bool {
        self.config.wf()
    }

    /// Queues of 64.
    pub fn new(config: InputConfig) -> (r: Self)
        requires
            config.wf(),
        ensures
            r.wf(),
            r@ == (Input {
                entries: config@,
                select: 0,
                subsel: 0,
                active: false,
                pending: Seq::empty(),
                discarding: false,
                dropped: 0,
                leds: 0,
                status: Seq::empty(),
            }),
    {
        VirtioInput {
            config,
            select: 0,
            subsel: 0,
            active: false,
            pending: VecDeque::new(),
            discarding: false,
            dropped: 0,
            leds: 0,
            status: Vec::new(),
        }
    }

    pub fn config(&self) -> (r: &InputConfig)
        ensures
            r@ == self@.entries,
    {
        &self.config
    }

    fn trim(&mut self)
        ensures
            final(self)@ == old(self)@.trimmed(),
            final(self).config == old(self).config,
    {
        while self.pending.len() > 0
            invariant_except_break
                self@.trimmed() == old(self)@.trimmed(),
            invariant
                self.config == old(self).config,
            ensures
                self@ == old(self)@.trimmed(),
            decreases self.pending@.len(),
        {
            if self.pending[self.pending.len() - 1].is_report() {
                break;
            }
            let ghost before = self@;
            let _ = self.pending.pop_back();
            self.dropped = self.dropped.wrapping_add(1);
            assert(self@ =~= Input {
                pending: before.pending.drop_last(),
                dropped: before.dropped.wrapping_add(1),
                ..before
            });
        }
    }

    fn take(&mut self, e: InputEvent)
        ensures
            final(self)@ == old(self)@.took(e),
            final(self).config == old(self).config,
    {
        if !self.active {
            self.dropped = self.dropped.wrapping_add(1);
            return;
        }
        if self.discarding || self.pending.len() >= MAX_PENDING {
            // The report does not fit: it is dropped to its end, with the events
            // queued after the last SYN_REPORT.
            if !self.discarding {
                self.trim();
            }
            self.discarding = !e.is_report();
            self.dropped = self.dropped.wrapping_add(1);
            return;
        }
        self.pending.push_back(e);
    }

    /// Queues events for the guest; they leave at the next service, in whole
    /// reports. Without an active driver they are dropped.
    pub fn inject(&mut self, events: &[InputEvent])
        ensures
            final(self)@ == old(self)@.injected(events@),
            final(self).config == old(self).config,
    {
        let mut i: usize = 0;
        assert(events@.take(0) =~= Seq::<InputEvent>::empty());
        while i < events.len()
            invariant
                i <= events@.len(),
                self.config == old(self).config,
                self@ == old(self)@.injected(events@.take(i as int)),
            decreases events@.len() - i,
        {
            assert(events@.take(i + 1).drop_last() =~= events@.take(i as int));
            self.take(events[i]);
            i += 1;
        }
        assert(events@.take(i as int) =~= events@);
    }

    /// A key (Linux code) pressed or released, with SYN_REPORT.
    pub fn key(&mut self, code: u16, down: bool)
        ensures
            final(self)@ == old(self)@.injected(key_events(code, down)),
            final(self).config == old(self).config,
    {
        let ev: Vec<InputEvent> = vec![
            InputEvent { ty: EV_KEY, code, value: if down { 1 } else { 0 } },
            InputEvent::syn(),
        ];
        assert(ev@ =~= key_events(code, down));
        self.inject(ev.as_slice());
    }

    /// Absolute position (0 to [`ABS_MAX_VALUE`]) of the tablet, with SYN_REPORT.
    pub fn move_abs(&mut self, x: u32, y: u32)
        ensures
            final(self)@ == old(self)@.injected(move_events(x, y)),
            final(self).config == old(self).config,
    {
        let ev: Vec<InputEvent> = vec![
            InputEvent { ty: EV_ABS, code: ABS_X, value: x },
            InputEvent { ty: EV_ABS, code: ABS_Y, value: y },
            InputEvent::syn(),
        ];
        assert(ev@ =~= move_events(x, y));
        self.inject(ev.as_slice());
    }

    /// A contact of the touchscreen in the slot `slot`: `Some((x, y))` puts or
    /// moves it (tracking id = slot), `None` takes it away. With BTN_TOUCH and
    /// SYN_REPORT.
    pub fn touch(&mut self, slot: u32, pos: Option<(u32, u32)>)
        ensures
            final(self)@ == old(self)@.injected(touch_events(slot, pos)),
            final(self).config == old(self).config,
    {
        let mut ev: Vec<InputEvent> = Vec::new();
        ev.push(InputEvent { ty: EV_ABS, code: ABS_MT_SLOT, value: slot });
        match pos {
            Some((x, y)) => {
                ev.push(InputEvent { ty: EV_ABS, code: ABS_MT_TRACKING_ID, value: slot });
                ev.push(InputEvent { ty: EV_ABS, code: ABS_MT_POSITION_X, value: x });
                ev.push(InputEvent { ty: EV_ABS, code: ABS_MT_POSITION_Y, value: y });
                ev.push(InputEvent { ty: EV_KEY, code: BTN_TOUCH, value: 1 });
            },
            None => {
                ev.push(InputEvent { ty: EV_ABS, code: ABS_MT_TRACKING_ID, value: 0xFFFF_FFFF });
                ev.push(InputEvent { ty: EV_KEY, code: BTN_TOUCH, value: 0 });
            },
        }
        ev.push(InputEvent::syn());
        assert(ev@ =~= touch_events(slot, pos));
        self.inject(ev.as_slice());
    }

    /// Events that wait for buffers of the driver.
    pub fn pending(&self) -> (r: usize)
        ensures
            r == self@.pending.len(),
    {
        self.pending.len()
    }

    /// Events dropped (driver not active or queue full).
    pub fn dropped(&self) -> (r: u64)
        ensures
            r == self@.dropped,
    {
        self.dropped
    }

    /// LEDs lit by the guest: bits `LED_*` (NUML = bit 0, CAPSL = 1, ...).
    pub fn leds(&self) -> (r: u32)
        ensures
            r == self@.leds,
    {
        self.leds
    }

    /// Events that arrived on the status queue, from the oldest on.
    pub fn take_status(&mut self) -> (r: Vec<InputEvent>)
        ensures
            r@ == old(self)@.status,
            final(self)@ == (Input { status: Seq::empty(), ..old(self)@ }),
            final(self).config == old(self).config,
    {
        let mut r: Vec<InputEvent> = Vec::new();
        std::mem::swap(&mut r, &mut self.status);
        r
    }

    fn window(&self) -> (r: Vec<u8>)
        requires
            self.wf(),
        ensures
            r@ == self@.window(),
    {
        match self.config.get(self.select, self.subsel) {
            Some(e) => {
                let n: usize = e.data.len();
                proof {
                    let i = choose|i: int| 0 <= i < self@.entries.len() && self@.entries[i] == e@;
                    assert(self@.entries[i].data.len() <= 128);
                }
                let mut w: Vec<u8> = vec![e.select, e.subsel, n as u8];
                push_zeros(&mut w, 5);
                push_bytes(&mut w, e.data.as_slice());
                push_zeros(&mut w, 128 - n);
                assert(w@ =~= self@.window());
                w
            },
            None => zeroed(136),
        }
    }

    /// How many events the first whole report has.
    fn first_report(&self) -> (n: usize)
        ensures
            n == report_len(self@.pending),
            n <= self.pending@.len(),
    {
        let mut i: usize = 0;
        assert(self.pending@.skip(0) =~= self.pending@);
        while i < self.pending.len()
            invariant
                i <= self.pending@.len(),
                report_len(self.pending@) == (if report_len(self.pending@.skip(i as int)) == 0 {
                    0
                } else {
                    report_len(self.pending@.skip(i as int)) + i
                }),
            decreases self.pending@.len() - i,
        {
            assert(self.pending@.skip(i as int)[0] == self.pending@[i as int]);
            assert(self.pending@.skip(i as int).skip(1) =~= self.pending@.skip(i + 1));
            if self.pending[i].is_report() {
                return i + 1;
            }
            i += 1;
        }
        0
    }

    fn write_report<R: GuestRam>(q: &mut Virtqueue, ram: &mut R, events: &Vec<InputEvent>) -> (r: Result<
        (),
        QueueError,
    >)
        requires
            old(q).wf(),
        ensures
            final(q).wf(),
            (*final(q), final(ram).mem(), r) == report_written(
                *old(q),
                old(ram).mem(),
                events@,
                0,
            ),
    {
        let mut i: usize = 0;
        while i < events.len()
            invariant
                q.wf(),
                i <= events@.len(),
                report_written(*old(q), old(ram).mem(), events@, 0) == report_written(
                    *q,
                    ram.mem(),
                    events@,
                    i as nat,
                ),
            decreases events@.len() - i,
        {
            match q.pop(ram) {
                Err(e) => {
                    return Err(e);
                },
                Ok(None) => {
                    return Ok(());
                },
                Ok(Some(c)) => {
                    let b: Vec<u8> = events[i].to_bytes();
                    let n: usize = match c.write(ram, 0, b.as_slice()) {
                        Ok(n) => n,
                        Err(e) => {
                            return Err(QueueError::Ram(e));
                        },
                    };
                    match q.push_used(ram, c.head, n as u32) {
                        Ok(_) => {},
                        Err(e) => {
                            return Err(QueueError::Ram(e));
                        },
                    }
                },
            }
            i += 1;
        }
        Ok(())
    }

    /// Takes the first `n` events out of the queue.
    fn take_report(&mut self, n: usize) -> (r: Vec<InputEvent>)
        requires
            n <= old(self)@.pending.len(),
        ensures
            r@ == old(self)@.pending.take(n as int),
            final(self)@ == (Input { pending: old(self)@.pending.skip(n as int), ..old(self)@ }),
            final(self).config == old(self).config,
    {
        let mut r: Vec<InputEvent> = Vec::new();
        let mut i: usize = 0;
        let ghost before = self@;
        assert(before.pending.skip(0) =~= before.pending);
        while i < n
            invariant
                i <= n <= before.pending.len(),
                self.config == old(self).config,
                self@ == (Input { pending: before.pending.skip(i as int), ..before }),
                r@ =~= before.pending.take(i as int),
            decreases n - i,
        {
            let e: InputEvent = self.pending[0];
            let _ = self.pending.pop_front();
            r.push(e);
            i += 1;
            assert(self@ =~= Input { pending: before.pending.skip(i as int), ..before });
        }
        r
    }

    fn deliver<R: GuestRam>(&mut self, q: &mut Virtqueue, ram: &mut R) -> (r: Result<
        (),
        QueueError,
    >)
        requires
            old(q).wf(),
        ensures
            final(q).wf(),
            final(self).config == old(self).config,
            (final(self)@, *final(q), final(ram).mem(), r) == old(self)@.delivered(
                *old(q),
                old(ram).mem(),
                SERVICE_LIMIT as nat,
            ),
    {
        let mut fuel: u64 = SERVICE_LIMIT;
        while fuel > 0
            invariant
                q.wf(),
                self.config == old(self).config,
                old(self)@.delivered(*old(q), old(ram).mem(), SERVICE_LIMIT as nat)
                    == self@.delivered(*q, ram.mem(), fuel as nat),
            decreases fuel,
        {
            let n: usize = self.first_report();
            if n == 0 {
                return Ok(());
            }
            match q.available(ram) {
                Err(e) => {
                    return Err(e);
                },
                Ok(free) => {
                    if (free as usize) < n {
                        return Ok(());
                    }
                },
            }
            let report: Vec<InputEvent> = self.take_report(n);
            match Self::write_report(q, ram, &report) {
                Ok(_) => {},
                Err(e) => {
                    return Err(e);
                },
            }
            fuel = fuel - 1;
        }
        Ok(())
    }

    /// Records an event of the status queue.
    fn record(&mut self, e: InputEvent)
        ensures
            final(self)@ == (Input {
                leds: led_set(old(self)@.leds, e),
                status: old(self)@.status.push(e),
                ..old(self)@
            }),
            final(self).config == old(self).config,
    {
        if e.ty == EV_LED && e.code < 32 {
            let bit: u32 = 1u32 << (e.code as u32);
            if e.value != 0 {
                self.leds = self.leds | bit;
            } else {
                self.leds = self.leds & !bit;
            }
        }
        self.status.push(e);
    }

    fn status_queue<R: GuestRam>(&mut self, q: &mut Virtqueue, ram: &mut R) -> (r: Result<
        (),
        QueueError,
    >)
        requires
            old(q).wf(),
        ensures
            final(q).wf(),
            final(self).config == old(self).config,
            (final(self)@, *final(q), final(ram).mem(), r) == old(self)@.heard(
                *old(q),
                old(ram).mem(),
                SERVICE_LIMIT as nat,
            ),
    {
        let mut fuel: u64 = SERVICE_LIMIT;
        while fuel > 0
            invariant
                q.wf(),
                self.config == old(self).config,
                old(self)@.heard(*old(q), old(ram).mem(), SERVICE_LIMIT as nat) == self@.heard(
                    *q,
                    ram.mem(),
                    fuel as nat,
                ),
            decreases fuel,
        {
            match q.pop(ram) {
                Err(e) => {
                    return Err(e);
                },
                Ok(None) => {
                    return Ok(());
                },
                Ok(Some(c)) => {
                    let mut b: Vec<u8> = match c.read_part(ram, 0, 8) {
                        Ok(b) => b,
                        Err(e) => {
                            return Err(QueueError::Ram(e));
                        },
                    };
                    proof {
                        lemma_gathered_len(ram.mem(), c@.readable, 0, 8);
                    }
                    let more: usize = 8 - b.len();
                    push_zeros(&mut b, more);
                    let s: &[u8] = b.as_slice();
                    let e = InputEvent { ty: le16(s, 0), code: le16(s, 2), value: le32(s, 4) };
                    self.record(e);
                    match q.push_used(ram, c.head, 0) {
                        Ok(_) => {},
                        Err(e) => {
                            return Err(QueueError::Ram(e));
                        },
                    }
                },
            }
            fuel = fuel - 1;
        }
        Ok(())
    }
}

impl VirtioDevice for VirtioInput {
    open spec fn dev_inv(&self) -> bool {
        self.wf()
    }

    open spec fn id(&self) -> u32 {
        ID_INPUT
    }

    open spec fn offers(&self) -> u64 {
        0
    }

    open spec fn sizes(&self) -> Seq<u16> {
        seq![64u16, 64u16]
    }

    open spec fn config(&self) -> Seq<u8> {
        self@.window()
    }

    open spec fn configured(pre: Self, offset: u64, data: Seq<u8>, post: Self) -> bool {
        post@ == pre@.chosen(offset, data)
    }

    open spec fn agreed(pre: Self, features: u64, post: Self, ok: bool) -> bool {
        post == pre && ok
    }

    open spec fn cleared(pre: Self, post: Self) -> bool {
        post@ == pre@.was_reset()
    }

    open spec fn served(
        pre: Self,
        before: Work,
        post: Self,
        after: Work,
        r: Result<(), QueueError>,
    ) -> bool {
        (post@, after, r) == pre@.served(before)
    }

    fn device_id(&self) -> (r: u32) {
        ID_INPUT
    }

    fn features(&self) -> (r: u64) {
        0
    }

    fn queue_max_sizes(&self) -> (r: Vec<u16>) {
        vec![64u16, 64u16]
    }

    fn read_config(&self, offset: u64, data: &mut [u8]) {
        let c: Vec<u8> = self.window();
        read_config_bytes(c.as_slice(), offset, data);
    }

    fn write_config(&mut self, offset: u64, data: &[u8]) {
        if offset == 0 && data.len() > 0 {
            self.select = data[0];
        }
        if offset == 0 && data.len() > 1 {
            self.subsel = data[1];
        }
        if offset == 1 && data.len() > 0 {
            self.subsel = data[0];
        }
    }

    fn negotiate(&mut self, features: u64) -> (r: bool) {
        true
    }

    fn reset(&mut self) {
        self.select = 0;
        self.subsel = 0;
        self.active = false;
        self.discarding = false;
        self.dropped = self.dropped.wrapping_add(self.pending.len() as u64);
        self.pending.clear();
        assert(self@ =~= old(self)@.was_reset());
    }

    fn service<R: GuestRam>(&mut self, ctx: &mut ServiceCtx, ram: &mut R) -> (r: Result<
        (),
        QueueError,
    >) {
        self.active = true;
        let mut sq: Virtqueue = ctx.queues[1];
        let heard = self.status_queue(&mut sq, ram);
        ctx.queues.set(1, sq);
        match heard {
            Ok(_) => {},
            Err(e) => {
                return Err(e);
            },
        }
        let mut eq: Virtqueue = ctx.queues[0];
        let r = self.deliver(&mut eq, ram);
        ctx.queues.set(0, eq);
        r
    }
}

/// The events up to the last end of a report.
pub open spec fn whole_reports(pending: Seq<InputEvent>) -> Seq<InputEvent>
    decreases pending.len(),
{
    if pending.len() == 0 || pending.last().ends() {
        pending
    } else {
        whole_reports(pending.drop_last())
    }
}

proof fn lemma_trimmed(s: Input)
    ensures
        s.trimmed().pending.len() <= s.pending.len(),
        s.trimmed().pending == whole_reports(s.pending),
        s.trimmed().active == s.active,
        s.trimmed().discarding == s.discarding,
        s.pending.len() + s.dropped <= u64::MAX ==> s.trimmed().pending.len()
            + s.trimmed().dropped == s.pending.len() + s.dropped,
    decreases s.pending.len(),
{
    if s.pending.len() > 0 && !s.pending.last().ends() {
        lemma_trimmed(
            Input { pending: s.pending.drop_last(), dropped: s.dropped.wrapping_add(1), ..s },
        );
    }
}

proof fn lemma_whole_reports(p: Seq<InputEvent>)
    ensures
        whole_reports(p).is_prefix_of(p),
        whole_reports(p).len() == 0 || whole_reports(p).last().ends(),
        forall|i: int| whole_reports(p).len() <= i < p.len() ==> !(#[trigger] p[i]).ends(),
    decreases p.len(),
{
    if p.len() > 0 && !p.last().ends() {
        lemma_whole_reports(p.drop_last());
        assert forall|i: int| whole_reports(p).len() <= i < p.len() implies !(#[trigger] p[i]).ends() by {
            if i < p.len() - 1 {
                assert(p.drop_last()[i] == p[i]);
            }
        }
    }
}

/// However much the host injects, at most [`MAX_PENDING`] events wait; and the
/// device only takes events away.
pub proof fn law_pending_events_are_bounded(
    s: Input,
    events: Seq<InputEvent>,
    q: Virtqueue,
    m: Mem,
    fuel: nat,
)
    requires
        s.pending.len() <= MAX_PENDING,
    ensures
        s.injected(events).pending.len() <= MAX_PENDING,
        s.heard(q, m, fuel).0.pending == s.pending,
        s.delivered(q, m, fuel).0.pending.len() <= s.pending.len(),
        s.was_reset().pending.len() == 0,
{
    lemma_injected_bounded(s, events);
    lemma_heard_keeps(s, q, m, fuel);
    lemma_delivered_takes(s, q, m, fuel);
}

proof fn lemma_injected_bounded(s: Input, events: Seq<InputEvent>)
    requires
        s.pending.len() <= MAX_PENDING,
    ensures
        s.injected(events).pending.len() <= MAX_PENDING,
    decreases events.len(),
{
    if events.len() > 0 {
        lemma_injected_bounded(s, events.drop_last());
        lemma_trimmed(s.injected(events.drop_last()));
    }
}

proof fn lemma_heard_keeps(s: Input, q: Virtqueue, m: Mem, fuel: nat)
    ensures
        s.heard(q, m, fuel).0.pending == s.pending,
    decreases fuel,
{
    if fuel > 0 {
        let (q1, m1, next) = q.popped(m);
        if let Ok(Some(c)) = next {
            if let Ok(d) = gathered(m1, c.readable, 0, 8) {
                let e = InputEvent::of(d + zeros((8 - d.len()) as nat));
                let s2 = Input { leds: led_set(s.leds, e), status: s.status.push(e), ..s };
                let (q3, m3, r3) = q1.returned(m1, c.head, 0);
                lemma_heard_keeps(s2, q3, m3, (fuel - 1) as nat);
            }
        }
    }
}

proof fn lemma_report_len(pending: Seq<InputEvent>)
    ensures
        report_len(pending) <= pending.len(),
    decreases pending.len(),
{
    if pending.len() > 0 {
        lemma_report_len(pending.skip(1));
    }
}

proof fn lemma_delivered_takes(s: Input, q: Virtqueue, m: Mem, fuel: nat)
    ensures
        s.delivered(q, m, fuel).0.pending.len() <= s.pending.len(),
    decreases fuel,
{
    let n = report_len(s.pending);
    lemma_report_len(s.pending);
    if fuel > 0 && n > 0 {
        let s2 = Input { pending: s.pending.skip(n as int), ..s };
        let (q2, m2, r2) = report_written(q, m, s.pending.take(n as int), 0);
        lemma_delivered_takes(s2, q2, m2, (fuel - 1) as nat);
    }
}

/// Every event that the host injects waits or is counted as dropped.
pub proof fn law_events_are_counted(s: Input, events: Seq<InputEvent>)
    requires
        s.pending.len() + s.dropped + events.len() <= u64::MAX,
    ensures
        s.injected(events).pending.len() + s.injected(events).dropped == s.pending.len()
            + s.dropped + events.len(),
    decreases events.len(),
{
    if events.len() > 0 {
        law_events_are_counted(s, events.drop_last());
        lemma_trimmed(s.injected(events.drop_last()));
    }
}

/// A report that finds the queue full is dropped whole: what is queued of it, and
/// all of it that comes up to its end. The reports before it stay.
pub proof fn law_full_queue_drops_whole_reports(s: Input, report: Seq<InputEvent>)
    requires
        s.active,
        !s.discarding,
        s.pending.len() >= MAX_PENDING,
        report.len() > 0,
        forall|i: int| 0 <= i < report.len() - 1 ==> !(#[trigger] report[i]).ends(),
    ensures
        ({
            let t = s.injected(report);
            &&& t.pending == whole_reports(s.pending)
            &&& t.pending.is_prefix_of(s.pending)
            &&& t.pending.len() == 0 || t.pending.last().ends()
            &&& forall|i: int| t.pending.len() <= i < s.pending.len() ==> !(#[trigger] s.pending[i]).ends()
            &&& t.discarding == !report.last().ends()
            &&& t.active
        }),
    decreases report.len(),
{
    lemma_whole_reports(s.pending);
    lemma_trimmed(s);
    let head = report.drop_last();
    if head.len() == 0 {
        assert(s.injected(head) == s);
    } else {
        assert forall|i: int| 0 <= i < head.len() - 1 implies !(#[trigger] head[i]).ends() by {
            assert(head[i] == report[i]);
        }
        law_full_queue_drops_whole_reports(s, head);
        assert(head.last() == report[report.len() - 2]);
    }
}

/// Without an active driver nothing that the host injects is kept.
pub proof fn law_events_need_an_active_driver(s: Input, events: Seq<InputEvent>)
    requires
        !s.active,
    ensures
        s.injected(events) == (Input { dropped: s.injected(events).dropped, ..s }),
    decreases events.len(),
{
    if events.len() > 0 {
        law_events_need_an_active_driver(s, events.drop_last());
    }
}

} // verus!
