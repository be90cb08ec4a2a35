//! EDID of the virtual monitor of virtio-gpu.
//!
//! The guest sees the monitor of QEMU's virtio-gpu, with the same list of modes:
//! EDID 1.4 with a base block, a CTA-861 extension and, for screens beyond 4096
//! points or with a clock beyond 655 MHz, a DisplayID 1.3 extension with the
//! preferred mode.
use vstd::prelude::*;
use vstd::utf8::encode_utf8;
use crate::bytes::{be16_bytes, le16_bytes, le32_bytes, push_be16, push_bytes, push_le16, push_le32, push_zeros, zeros};

verus! {

/// Parameters of the monitor.
#[derive(Clone, Debug, PartialEq, Eq)]
pub struct EdidInfo {
    /// PNP code of the vendor (three capital letters).
    pub vendor: [u8; 3],
    /// Name of the monitor (at most 12 bytes in the descriptor).
    pub name: String,
    /// Serial number (text; the numeric field is its decimal value).
    pub serial: Option<String>,
    /// Physical size; 0 = derived from 100 DPI.
    pub width_mm: u16,
    pub height_mm: u16,
    /// Preferred mode.
    pub prefx: u32,
    pub prefy: u32,
    /// Largest resolution of the modes listed (0 = no limit).
    pub maxx: u32,
    pub maxy: u32,
    /// Refresh of the preferred mode in mHz (0 = 75000).
    pub refresh_mhz: u32,
}

/// What an [`EdidInfo`] says.
#[verifier::ext_equal]
pub struct Monitor {
    pub vendor: Seq<u8>,
    pub name: Seq<char>,
    pub serial: Option<Seq<char>>,
    pub width_mm: u16,
    pub height_mm: u16,
    pub prefx: u32,
    pub prefy: u32,
    pub maxx: u32,
    pub maxy: u32,
    pub refresh_mhz: u32,
}

impl View for EdidInfo {
    type V = Monitor;

    open spec fn view(&self) -> Monitor {
        Monitor {
            vendor: self.vendor@,
            name: self.name@,
            serial: match self.serial {
                Some(s) => Some(s@),
                None => None,
            },
            width_mm: self.width_mm,
            height_mm: self.height_mm,
            prefx: self.prefx,
            prefy: self.prefy,
            maxx: self.maxx,
            maxy: self.maxy,
            refresh_mhz: self.refresh_mhz,
        }
    }
}

impl Default for EdidInfo {
    fn default() -> (r: Self)
        ensures
            r@ == (Monitor {
                vendor: seq![82u8, 72, 84],
                name: "QEMU Monitor"@,
                serial: None,
                width_mm: 0,
                height_mm: 0,
                prefx: 1280,
                prefy: 800,
                maxx: 0,
                maxy: 0,
                refresh_mhz: 0,
            }),
    {
        let mut name: String = String::new();
        crate::text::push_text(&mut name, "QEMU Monitor");
        assert(name@ =~= "QEMU Monitor"@);
        // "RHT"
        let vendor: [u8; 3] = [82, 72, 84];
        assert(vendor@ =~= seq![82u8, 72, 84]);
        EdidInfo {
            vendor,
            name,
            serial: None,
            width_mm: 0,
            height_mm: 0,
            prefx: 1280,
            prefy: 800,
            maxx: 0,
            maxy: 0,
            refresh_mhz: 0,
        }
    }
}

// ---- Modes ----------------------------------------------------------------------

/// The modes, in the order in which they are declared: width, height, the byte
/// and the bit where a mode has a place of its own (bytes 35 and 36: established
/// modes; 7 to 11: the third list of standard timings; 0: none), and the CTA code.
pub const MODES: [(u32, u32, u8, u8, u8); 22] = [
    // CTA modes at 50 Hz.
    (5120, 2160, 0, 0, 125),
    (4096, 2160, 0, 0, 101),
    (3840, 2160, 0, 0, 96),
    (2560, 1080, 0, 0, 89),
    (2048, 1152, 0, 0, 0),
    (1920, 1080, 0, 0, 31),
    // CTA modes at 60 Hz.
    (3840, 2160, 0, 0, 97),
    // Standard timings 3 (60 Hz).
    (1920, 1200, 10, 0, 0),
    (1600, 1200, 9, 2, 0),
    (1680, 1050, 9, 5, 0),
    (1440, 900, 8, 5, 0),
    (1280, 1024, 7, 1, 0),
    (1280, 960, 7, 3, 0),
    (1280, 768, 7, 6, 0),
    (1920, 1440, 11, 5, 0),
    (1856, 1392, 10, 3, 0),
    (1792, 1344, 10, 5, 0),
    (1440, 1050, 8, 1, 0),
    (1360, 768, 8, 7, 0),
    // Established modes (60 Hz).
    (1024, 768, 36, 3, 0),
    (800, 600, 35, 0, 0),
    (640, 480, 35, 5, 0),
];

/// Standard mode of 2 bytes; none if the ratio is not 16:10, 4:3, 5:4 or 16:9 or
/// the width cannot be represented.
pub open spec fn std_code(x: u32, y: u32) -> Option<Seq<u8>> {
    let aspect: Option<u8> = if x * 10 == y * 16 {
        Some(0x00)
    } else if x * 3 == y * 4 {
        Some(0x40)
    } else if x * 4 == y * 5 {
        Some(0x80)
    } else if x * 9 == y * 16 {
        Some(0xC0)
    } else {
        None
    };
    match aspect {
        Some(a) if 31 <= x / 8 <= 286 => Some(seq![(x / 8 - 31) as u8, a]),
        _ => None,
    }
}

fn std_mode(x: u32, y: u32) -> (r: Option<Vec<u8>>)
    requires
        x < 0x1000_0000,
        y < 0x1000_0000,
    ensures
        match r {
            Some(c) => std_code(x, y) == Some(c@),
            None => std_code(x, y) is None,
        },
{
    let aspect: u8 = if x * 10 == y * 16 {
        0x00
    } else if x * 3 == y * 4 {
        0x40
    } else if x * 4 == y * 5 {
        0x80
    } else if x * 9 == y * 16 {
        0xC0
    } else {
        return None;
    };
    if x / 8 < 31 || x / 8 > 286 {
        return None;
    }
    let c: Vec<u8> = vec![(x / 8 - 31) as u8, aspect];
    assert(c@ =~= seq![(x / 8 - 31) as u8, aspect]);
    Some(c)
}

/// Where the modes are declared.
#[verifier::ext_equal]
pub struct ModeBytes {
    /// Established modes (bytes 35 to 37).
    pub established: Seq<u8>,
    /// Standard modes, at most eight.
    pub std: Seq<u8>,
    /// Bytes 6 to 11 of the descriptor of the third list of standard timings.
    pub xtra3: Seq<u8>,
    /// CTA codes.
    pub cta: Seq<u8>,
}

/// One more mode, if it is within the limits.
pub open spec fn mode_added(
    b: ModeBytes,
    mode: (u32, u32, u8, u8, u8),
    maxx: u32,
    maxy: u32,
) -> ModeBytes {
    let (x, y, place, bit, code) = mode;
    if (maxx != 0 && x > maxx) || (maxy != 0 && y > maxy) {
        b
    } else {
        let b = if place >= 35 {
            let i = place - 35;
            ModeBytes {
                established: b.established.update(i, b.established[i] | (1u8 << bit)),
                ..b
            }
        } else if b.std.len() < 16 {
            match std_code(x, y) {
                Some(c) => ModeBytes { std: b.std + c, ..b },
                None => b,
            }
        } else if place > 0 {
            let i = place - 6;
            ModeBytes { xtra3: b.xtra3.update(i, b.xtra3[i] | (1u8 << bit)), ..b }
        } else {
            b
        };
        if code != 0 {
            ModeBytes { cta: b.cta.push(code), ..b }
        } else {
            b
        }
    }
}

pub open spec fn modes_added(
    modes: Seq<(u32, u32, u8, u8, u8)>,
    maxx: u32,
    maxy: u32,
) -> ModeBytes
    decreases modes.len(),
{
    if modes.len() == 0 {
        ModeBytes {
            established: zeros(3),
            std: Seq::empty(),
            xtra3: zeros(6),
            cta: Seq::empty(),
        }
    } else {
        mode_added(modes_added(modes.drop_last(), maxx, maxy), modes.last(), maxx, maxy)
    }
}

/// The modes within the limits.
pub open spec fn listed_modes(maxx: u32, maxy: u32) -> ModeBytes {
    modes_added(MODES@, maxx, maxy)
}

/// Standard modes filled up to eight with the unused code.
pub open spec fn std_filled(std: Seq<u8>) -> Seq<u8> {
    std + Seq::new((16 - std.len()) as nat, |i: int| 1u8)
}

/// The parts of the EDID where modes are declared.
pub struct ModeList {
    pub established: Vec<u8>,
    pub std: Vec<u8>,
    pub xtra3: Vec<u8>,
    pub cta: Vec<u8>,
}

impl View for ModeList {
    type V = ModeBytes;

    open spec fn view(&self) -> ModeBytes {
        ModeBytes {
            established: self.established@,
            std: self.std@,
            xtra3: self.xtra3@,
            cta: self.cta@,
        }
    }
}

impl ModeList {
    fn add(&mut self, mode: (u32, u32, u8, u8, u8), maxx: u32, maxy: u32)
        requires
            old(self)@.established.len() == 3,
            old(self)@.xtra3.len() == 6,
            mode.0 < 10_000,
            mode.1 < 10_000,
            mode.2 == 0 || 7 <= mode.2 <= 11 || 35 <= mode.2 <= 36,
            mode.3 < 8,
        ensures
            final(self)@ == mode_added(old(self)@, mode, maxx, maxy),
            final(self)@.established.len() == 3,
            final(self)@.xtra3.len() == 6,
            old(self)@.std.len() <= 16 && old(self)@.std.len() % 2 == 0 ==> final(self)@.std.len()
                <= 16 && final(self)@.std.len() % 2 == 0,
            final(self)@.cta.len() <= old(self)@.cta.len() + (if mode.4 != 0 {
                1int
            } else {
                0
            }),
    {
        let (x, y, place, bit, code) = mode;
        if (maxx != 0 && x > maxx) || (maxy != 0 && y > maxy) {
            return;
        }
        let mask: u8 = 1u8 << bit;
        if place >= 35 {
            let i: usize = place as usize - 35;
            self.established.set(i, self.established[i] | mask);
        } else if self.std.len() < 16 {
            match std_mode(x, y) {
                Some(c) => {
                    push_bytes(&mut self.std, c.as_slice());
                },
                None => {},
            }
        } else if place > 0 {
            let i: usize = place as usize - 6;
            self.xtra3.set(i, self.xtra3[i] | mask);
        }
        if code != 0 {
            self.cta.push(code);
        }
    }

    fn of(maxx: u32, maxy: u32) -> (r: Self)
        ensures
            r@ == listed_modes(maxx, maxy),
            r@.established.len() == 3,
            r@.xtra3.len() == 6,
            r@.std.len() <= 16,
            r@.cta.len() <= 7,
    {
        let modes: [(u32, u32, u8, u8, u8); 22] = MODES;
        let mut r = ModeList {
            established: crate::bytes::zeroed(3),
            std: Vec::new(),
            xtra3: crate::bytes::zeroed(6),
            cta: Vec::new(),
        };
        let mut i: usize = 0;
        assert(modes@.take(0) =~= Seq::<(u32, u32, u8, u8, u8)>::empty());
        while i < 22
            invariant
                i <= 22,
                modes@ == MODES@,
                modes@.len() == 22,
                forall|k: int|
                    0 <= k < 22 ==> {
                        let m = #[trigger] modes@[k];
                        &&& m.0 < 10_000 && m.1 < 10_000 && m.3 < 8
                        &&& m.2 == 0 || 7 <= m.2 <= 11 || 35 <= m.2 <= 36
                        &&& k >= 7 ==> m.4 == 0
                    },
                r@ == modes_added(modes@.take(i as int), maxx, maxy),
                r@.established.len() == 3,
                r@.xtra3.len() == 6,
                r@.std.len() <= 16,
                r@.std.len() % 2 == 0,
                r@.cta.len() <= i,
                r@.cta.len() <= 7,
            decreases 22 - i,
        {
            assert(modes@.take(i + 1).drop_last() =~= modes@.take(i as int));
            r.add(modes[i], maxx, maxy);
            i += 1;
        }
        assert(modes@.take(22) =~= modes@);
        r
    }
}

// ---- Timings --------------------------------------------------------------------

/// Timings of the preferred mode, in proportion to the resolution.
#[derive(Clone, Copy, Debug, PartialEq, Eq, Structural)]
pub struct Timings {
    pub xfront: u32,
    pub xsync: u32,
    pub xblank: u32,
    pub yfront: u32,
    pub ysync: u32,
    pub yblank: u32,
    /// In units of 10 kHz.
    pub clock: u128,
}

pub open spec fn timings_of(refresh_mhz: u32, x: u32, y: u32) -> Timings {
    let xblank = x * 35 / 100;
    let yblank = y * 35 / 1000;
    Timings {
        xfront: (x * 25 / 100) as u32,
        xsync: (x * 3 / 100) as u32,
        xblank: xblank as u32,
        yfront: (y * 5 / 1000) as u32,
        ysync: (y * 5 / 1000) as u32,
        yblank: yblank as u32,
        clock: (refresh_mhz * (x + xblank) * (y + yblank) / 10_000_000) as u128,
    }
}

fn timings(refresh_mhz: u32, x: u32, y: u32) -> (t: Timings)
    ensures
        t == timings_of(refresh_mhz, x, y),
{
    let wx: u64 = x as u64;
    let wy: u64 = y as u64;
    let xblank: u64 = wx * 35 / 100;
    let yblank: u64 = wy * 35 / 1000;
    let a: u128 = refresh_mhz as u128;
    let b: u128 = (wx + xblank) as u128;
    let c: u128 = (wy + yblank) as u128;
    assert(a * b <= 0x1_0000_0000 * 0x2_0000_0000) by (nonlinear_arith)
        requires
            0 <= a <= 0x1_0000_0000,
            0 <= b <= 0x2_0000_0000,
    ;
    let ab: u128 = a * b;
    assert(ab * c <= 0x2_0000_0000_0000_0000 * 0x2_0000_0000) by (nonlinear_arith)
        requires
            0 <= ab <= 0x2_0000_0000_0000_0000,
            0 <= c <= 0x2_0000_0000,
    ;
    let clock: u128 = ab * c / 10_000_000;
    Timings {
        xfront: (wx * 25 / 100) as u32,
        xsync: (wx * 3 / 100) as u32,
        xblank: xblank as u32,
        yfront: (wy * 5 / 1000) as u32,
        ysync: (wy * 5 / 1000) as u32,
        yblank: yblank as u32,
        clock,
    }
}

// ---- Descriptors ----------------------------------------------------------------

/// Start of a descriptor of type `ty`.
pub open spec fn desc_type(ty: u8) -> Seq<u8> {
    seq![0u8, 0, 0, ty, 0]
}

/// A descriptor with text: at most 12 bytes and a line end, filled with spaces.
pub open spec fn desc_text(ty: u8, text: Seq<u8>) -> Seq<u8> {
    let t = if text.len() <= 12 {
        text
    } else {
        text.take(12)
    };
    desc_type(ty) + t + seq![10u8] + Seq::new((12 - t.len()) as nat, |i: int| 32u8)
}

/// The detailed descriptor of the preferred mode.
pub open spec fn desc_timing(t: Timings, x: u32, y: u32, xmm: u32, ymm: u32) -> Seq<u8> {
    le16_bytes(t.clock as u16) + seq![
        x as u8,
        t.xblank as u8,
        (((x & 0xf00) >> 4) | ((t.xblank & 0xf00) >> 8)) as u8,
        y as u8,
        t.yblank as u8,
        (((y & 0xf00) >> 4) | ((t.yblank & 0xf00) >> 8)) as u8,
        t.xfront as u8,
        t.xsync as u8,
        (((t.yfront & 0xf) << 4) | (t.ysync & 0xf)) as u8,
        (((t.xfront & 0x300) >> 2) | ((t.xsync & 0x300) >> 4) | ((t.yfront & 0x30) >> 2) | ((
        t.ysync & 0x30) >> 4)) as u8,
        xmm as u8,
        ymm as u8,
        (((xmm & 0xf00) >> 4) | ((ymm & 0xf00) >> 8)) as u8,
        0u8,
        0u8,
        0x18u8,
    ]
}

/// The third list of standard timings.
pub open spec fn desc_xtra3(bits: Seq<u8>) -> Seq<u8> {
    desc_type(0xf7) + seq![10u8] + bits + zeros(6)
}

/// Limits of the monitor: 50 to 125 Hz, 30 to 160 kHz, 2550 MHz.
pub open spec fn desc_limits() -> Seq<u8> {
    desc_type(0xfd) + seq![50u8, 125, 30, 160, 255, 1, 10, 32, 32, 32, 32, 32, 32]
}

/// An unused descriptor.
pub open spec fn desc_unused() -> Seq<u8> {
    desc_type(0x10) + zeros(13)
}

/// Descriptors one after another.
pub open spec fn joined(ds: Seq<Seq<u8>>) -> Seq<u8>
    decreases ds.len(),
{
    if ds.len() == 0 {
        Seq::empty()
    } else {
        joined(ds.drop_last()) + ds.last()
    }
}

/// Descriptors `from` to `to`, unused ones after the last.
pub open spec fn slots(ds: Seq<Seq<u8>>, from: int, to: int) -> Seq<u8> {
    joined(
        Seq::new(
            (to - from) as nat,
            |i: int|
                if from + i < ds.len() {
                    ds[from + i]
                } else {
                    desc_unused()
                },
        ),
    )
}

/// Sum of the bytes, modulo 256.
pub open spec fn byte_sum(s: Seq<u8>) -> int
    decreases s.len(),
{
    if s.len() == 0 {
        0
    } else {
        (byte_sum(s.drop_last()) + s.last()) % 256
    }
}

/// The byte that makes the sum of a block zero.
pub open spec fn checksum_of(s: Seq<u8>) -> u8 {
    ((256 - byte_sum(s)) % 256) as u8
}

/// A block of 128 bytes: `s`, zeros, and the checksum.
pub open spec fn block(s: Seq<u8>) -> Seq<u8> {
    let body = s + zeros((127 - s.len()) as nat);
    body.push(checksum_of(body))
}

// ---- The EDID -------------------------------------------------------------------

/// The value of the digits at the start.
pub open spec fn digits_value(s: Seq<char>, acc: u32) -> u32
    decreases s.len(),
{
    if s.len() > 0 && '0' <= s[0] <= '9' {
        digits_value(
            s.skip(1),
            acc.wrapping_mul(10).wrapping_add((s[0] as u32 - '0' as u32) as u32),
        )
    } else {
        acc
    }
}

/// White space at the start of a number.
pub open spec fn is_space(c: char) -> bool {
    let v = c as u32;
    9 <= v <= 13 || v == 0x20 || v == 0x85 || v == 0xA0 || v == 0x1680 || 0x2000 <= v <= 0x200A || v
        == 0x2028 || v == 0x2029 || v == 0x202F || v == 0x205F || v == 0x3000
}

pub open spec fn unspaced(s: Seq<char>) -> Seq<char>
    decreases s.len(),
{
    if s.len() > 0 && is_space(s[0]) {
        unspaced(s.skip(1))
    } else {
        s
    }
}

/// The number at the start of a text: white space, a sign, digits.
pub open spec fn number_in(s: Seq<char>) -> u32 {
    let t = unspaced(s);
    if t.len() > 0 && t[0] == '-' {
        0u32.wrapping_sub(digits_value(t.skip(1), 0))
    } else if t.len() > 0 && t[0] == '+' {
        digits_value(t.skip(1), 0)
    } else {
        digits_value(t, 0)
    }
}

/// Five bits of a letter of the vendor.
pub open spec fn letter(c: u8) -> u16 {
    (c.wrapping_sub(64) & 0x1f) as u16
}

impl Monitor {
    pub open spec fn x(self) -> u32 {
        if self.prefx == 0 {
            1280
        } else {
            self.prefx
        }
    }

    pub open spec fn y(self) -> u32 {
        if self.prefy == 0 {
            800
        } else {
            self.prefy
        }
    }

    /// Physical width: the one given, or from 100 DPI.
    pub open spec fn wmm(self) -> u32 {
        if self.width_mm != 0 && self.height_mm != 0 {
            self.width_mm as u32
        } else {
            (self.x() * 254 / 10 / 100) as u32
        }
    }

    pub open spec fn hmm(self) -> u32 {
        if self.width_mm != 0 && self.height_mm != 0 {
            self.height_mm as u32
        } else {
            (self.y() * 254 / 10 / 100) as u32
        }
    }

    pub open spec fn timings(self) -> Timings {
        timings_of(
            if self.refresh_mhz == 0 {
                75_000
            } else {
                self.refresh_mhz
            },
            self.x(),
            self.y(),
        )
    }

    /// The preferred mode does not fit in a detailed descriptor.
    pub open spec fn large(self) -> bool {
        self.x() >= 4096 || self.y() >= 4096 || self.timings().clock >= 65536
    }

    pub open spec fn modes(self) -> ModeBytes {
        listed_modes(self.maxx, self.maxy)
    }

    /// The descriptors: the preferred mode if it fits, the third list of standard
    /// timings, the limits, the name and the serial number.
    pub open spec fn descriptors(self) -> Seq<Seq<u8>> {
        let first: Seq<Seq<u8>> = if self.large() {
            Seq::empty()
        } else {
            seq![desc_timing(self.timings(), self.x(), self.y(), self.wmm(), self.hmm())]
        };
        let named = first.push(desc_xtra3(self.modes().xtra3)).push(desc_limits()).push(
            desc_text(0xfc, encode_utf8(self.name)),
        );
        match self.serial {
            Some(s) => named.push(desc_text(0xff, encode_utf8(s))),
            None => named,
        }
    }

    /// Vendor, product, serial number, date and version.
    pub open spec fn identity(self) -> Seq<u8> {
        seq![0x00u8, 0xff, 0xff, 0xff, 0xff, 0xff, 0xff, 0x00] + be16_bytes(
            (letter(self.vendor[0]) << 10) | (letter(self.vendor[1]) << 5) | letter(self.vendor[2]),
        ) + seq![0x34u8, 0x12] + le32_bytes(
            match self.serial {
                Some(s) => number_in(s),
                None => 0,
            },
        ) + seq![42u8, 24, 1, 4]
    }

    /// Digital input of 8 bits, size, gamma 2.2, sRGB and its coordinates.
    pub open spec fn display(self) -> Seq<u8> {
        seq![
            0xa5u8,
            (self.wmm() / 10) as u8,
            (self.hmm() / 10) as u8,
            120,
            0x06,
            0xee,
            0x91,
            0xa3,
            0x54,
            0x4c,
            0x99,
            0x26,
            0x0f,
            0x50,
            0x54,
        ]
    }

    pub open spec fn base_block(self, extensions: u8) -> Seq<u8> {
        block(
            self.identity() + self.display() + self.modes().established + std_filled(
                self.modes().std,
            ) + slots(self.descriptors(), 0, 4) + seq![extensions],
        )
    }

    /// The CTA extension: the codes of the modes, then six descriptors.
    pub open spec fn cta_block(self) -> Seq<u8> {
        let codes = self.modes().cta;
        block(
            seq![0x02u8, 0x03, (5 + codes.len()) as u8, 0x00, (0x40 + codes.len()) as u8] + codes
                + slots(self.descriptors(), 4, 10),
        )
    }

    /// The DisplayID extension with the preferred mode.
    pub open spec fn displayid_block(self) -> Seq<u8> {
        let t = self.timings();
        let s = seq![0x70u8, 0x13, 23, 0x03, 0x00, 0x03, 0x00, 0x14] + le32_bytes(
            t.clock as u32,
        ).take(3) + seq![0x88u8] + le16_bytes(self.x().wrapping_sub(1) as u16) + le16_bytes(
            t.xblank.wrapping_sub(1) as u16,
        ) + le16_bytes(t.xfront.wrapping_sub(1) as u16) + le16_bytes(
            t.xsync.wrapping_sub(1) as u16,
        ) + le16_bytes(self.y().wrapping_sub(1) as u16) + le16_bytes(
            t.yblank.wrapping_sub(1) as u16,
        ) + le16_bytes(t.yfront.wrapping_sub(1) as u16) + le16_bytes(
            t.ysync.wrapping_sub(1) as u16,
        );
        block(s.push(checksum_of(s.skip(1))))
    }

    /// The EDID in a buffer of `size` bytes (at least 128).
    pub open spec fn edid(self, size: nat) -> Seq<u8> {
        let cta = size >= 256;
        let did = size >= 384 && self.large();
        let extensions: u8 = if did {
            2
        } else if cta {
            1
        } else {
            0
        };
        let e = self.base_block(extensions);
        let e = if cta {
            e + self.cta_block()
        } else {
            e
        };
        let e = if did {
            e + self.displayid_block()
        } else {
            e
        };
        if size > e.len() {
            e + zeros((size - e.len()) as nat)
        } else {
            e
        }
    }
}

/// How many bytes the EDID in a buffer says that it has: 128 for each block, 0 if
/// it is not an EDID.
pub open spec fn stated_len(e: Seq<u8>) -> int {
    if e.len() < 128 || e[0] != 0 || e[1] != 0xff {
        0
    } else {
        128 * (e[126] + 1)
    }
}

/// How many blocks the EDID has in a buffer of `size` bytes.
pub open spec fn block_count(size: nat, large: bool) -> int {
    if size >= 384 && large {
        3
    } else if size >= 256 {
        2
    } else {
        1
    }
}

/// The block `k` of a buffer.
pub open spec fn block_of(e: Seq<u8>, k: int) -> Seq<u8> {
    e.subrange(128 * k, 128 * k + 128)
}

/// `e` is a buffer of `size` bytes (at least its blocks) with `n` blocks, each of
/// which sums to zero, and zeros after them.
pub open spec fn is_whole(e: Seq<u8>, size: nat, n: int) -> bool {
    &&& e.len() == (if size > 128 * n { size as int } else { 128 * n })
    &&& stated_len(e) == 128 * n
    &&& forall|k: int| 0 <= k < n ==> byte_sum(#[trigger] block_of(e, k)) == 0
    &&& forall|i: int| 128 * n <= i < e.len() ==> #[trigger] e[i] == 0
}

/// `atoi` of C: initial decimal digits (with a sign), the rest is ignored.
pub fn atoi(s: &str) -> (r: u32)
    ensures
        r == number_in(s@),
{
    let n: usize = s.unicode_len();
    let mut i: usize = 0;
    assert(s@.skip(0) =~= s@);
    while i < n
        invariant_except_break
            unspaced(s@) == unspaced(s@.skip(i as int)),
        invariant
            n == s@.len(),
            i <= n,
        ensures
            unspaced(s@) == s@.skip(i as int),
        decreases n - i,
    {
        let c: char = s.get_char(i);
        assert(s@.skip(i as int)[0] == c);
        assert(s@.skip(i as int).skip(1) =~= s@.skip(i + 1));
        let v: u32 = c as u32;
        let space: bool = (9 <= v && v <= 13) || v == 0x20 || v == 0x85 || v == 0xA0 || v == 0x1680
            || (0x2000 <= v && v <= 0x200A) || v == 0x2028 || v == 0x2029 || v == 0x202F || v
            == 0x205F || v == 0x3000;
        if !space {
            break;
        }
        i += 1;
    }
    let ghost t = s@.skip(i as int);
    let mut neg: bool = false;
    if i < n {
        let c: char = s.get_char(i);
        assert(t[0] == c);
        assert(t.skip(1) =~= s@.skip(i + 1));
        if c == '-' {
            neg = true;
            i += 1;
        } else if c == '+' {
            i += 1;
        }
    }
    let mut v: u32 = 0;
    let ghost whole = digits_value(s@.skip(i as int), 0);
    while i < n
        invariant_except_break
            whole == digits_value(s@.skip(i as int), v),
        invariant
            n == s@.len(),
            i <= n,
        ensures
            whole == v,
        decreases n - i,
    {
        let c: char = s.get_char(i);
        assert(s@.skip(i as int)[0] == c);
        assert(s@.skip(i as int).skip(1) =~= s@.skip(i + 1));
        let d: u32 = c as u32;
        if d < 48 || d > 57 {
            break;
        }
        v = v.wrapping_mul(10).wrapping_add(d - 48);
        i += 1;
    }
    if neg {
        0u32.wrapping_sub(v)
    } else {
        v
    }
}

/// Appends descriptors.
fn push_slots(out: &mut Vec<u8>, ds: &Vec<Vec<u8>>, from: usize, to: usize)
    requires
        from <= to,
    ensures
        final(out)@ == old(out)@ + slots(descs_view(ds@), from as int, to as int),
{
    let ghost whole = Seq::new(
        (to - from) as nat,
        |i: int|
            if from + i < ds@.len() {
                descs_view(ds@)[from + i]
            } else {
                desc_unused()
            },
    );
    let mut i: usize = from;
    assert(whole.take(0) =~= Seq::<Seq<u8>>::empty());
    assert(out@ =~= old(out)@ + joined(whole.take(0)));
    while i < to
        invariant
            from <= i <= to,
            whole == Seq::new(
                (to - from) as nat,
                |i: int|
                    if from + i < ds@.len() {
                        descs_view(ds@)[from + i]
                    } else {
                        desc_unused()
                    },
            ),
            out@ == old(out)@ + joined(whole.take(i - from)),
        decreases to - i,
    {
        assert(whole.take(i - from + 1).drop_last() =~= whole.take(i - from));
        assert(whole.take(i - from + 1).last() == whole[i - from]);
        let ghost before = out@;
        if i < ds.len() {
            push_bytes(out, ds[i].as_slice());
            assert(out@ =~= before + whole[i - from]);
        } else {
            push_desc_type(out, 0x10);
            push_zeros(out, 13);
            assert(out@ =~= before + desc_unused());
        }
        i += 1;
        assert(out@ =~= old(out)@ + joined(whole.take(i - from)));
    }
    assert(whole.take(to - from) =~= whole);
}

pub open spec fn descs_view(s: Seq<Vec<u8>>) -> Seq<Seq<u8>> {
    s.map_values(|d: Vec<u8>| d@)
}

fn push_desc_type(out: &mut Vec<u8>, ty: u8)
    ensures
        final(out)@ == old(out)@ + desc_type(ty),
{
    out.push(0);
    out.push(0);
    out.push(0);
    out.push(ty);
    out.push(0);
    assert(out@ =~= old(out)@ + desc_type(ty));
}

fn text_desc(ty: u8, text: &[u8]) -> (r: Vec<u8>)
    ensures
        r@ == desc_text(ty, text@),
        r@.len() == 18,
{
    let mut d: Vec<u8> = Vec::new();
    push_desc_type(&mut d, ty);
    let n: usize = if text.len() <= 12 {
        text.len()
    } else {
        12
    };
    push_bytes(&mut d, vstd::slice::slice_subrange(text, 0, n));
    d.push(10);
    let ghost start = d@;
    let mut i: usize = n;
    while i < 12
        invariant
            n <= i <= 12,
            d@ =~= start + Seq::new((i - n) as nat, |i: int| 32u8),
        decreases 12 - i,
    {
        d.push(32);
        i += 1;
    }
    proof {
        let t = if text@.len() <= 12 {
            text@
        } else {
            text@.take(12)
        };
        assert(text@.subrange(0, n as int) =~= t);
        assert(d@ =~= desc_text(ty, text@));
    }
    d
}

fn timing_desc(t: Timings, x: u32, y: u32, xmm: u32, ymm: u32) -> (r: Vec<u8>)
    ensures
        r@ == desc_timing(t, x, y, xmm, ymm),
        r@.len() == 18,
{
    let mut d: Vec<u8> = Vec::new();
    push_le16(&mut d, t.clock as u16);
    d.push(x as u8);
    d.push(t.xblank as u8);
    d.push((((x & 0xf00) >> 4) | ((t.xblank & 0xf00) >> 8)) as u8);
    d.push(y as u8);
    d.push(t.yblank as u8);
    d.push((((y & 0xf00) >> 4) | ((t.yblank & 0xf00) >> 8)) as u8);
    d.push(t.xfront as u8);
    d.push(t.xsync as u8);
    d.push((((t.yfront & 0xf) << 4) | (t.ysync & 0xf)) as u8);
    d.push(
        (((t.xfront & 0x300) >> 2) | ((t.xsync & 0x300) >> 4) | ((t.yfront & 0x30) >> 2) | ((
        t.ysync & 0x30) >> 4)) as u8,
    );
    d.push(xmm as u8);
    d.push(ymm as u8);
    d.push((((xmm & 0xf00) >> 4) | ((ymm & 0xf00) >> 8)) as u8);
    d.push(0);
    d.push(0);
    d.push(0x18);
    assert(d@ =~= desc_timing(t, x, y, xmm, ymm));
    d
}

fn xtra3_desc(bits: &Vec<u8>) -> (r: Vec<u8>)
    requires
        bits@.len() == 6,
    ensures
        r@ == desc_xtra3(bits@),
        r@.len() == 18,
{
    let mut d: Vec<u8> = Vec::new();
    push_desc_type(&mut d, 0xf7);
    d.push(10);
    push_bytes(&mut d, bits.as_slice());
    push_zeros(&mut d, 6);
    assert(d@ =~= desc_xtra3(bits@));
    d
}

fn limits_desc() -> (r: Vec<u8>)
    ensures
        r@ == desc_limits(),
        r@.len() == 18,
{
    let mut d: Vec<u8> = Vec::new();
    push_desc_type(&mut d, 0xfd);
    let limits: [u8; 13] = [50, 125, 30, 160, 255, 1, 10, 32, 32, 32, 32, 32, 32];
    push_bytes(&mut d, &limits);
    assert(d@ =~= desc_limits());
    d
}

/// The byte that makes the sum of `s[from..]` zero.
fn checksum(s: &Vec<u8>, from: usize) -> (r: u8)
    requires
        from <= s@.len(),
    ensures
        r == checksum_of(s@.skip(from as int)),
{
    let mut sum: u8 = 0;
    let mut i: usize = from;
    let ghost tail = s@.skip(from as int);
    assert(tail.take(0) =~= Seq::<u8>::empty());
    while i < s.len()
        invariant
            from <= i <= s@.len(),
            tail == s@.skip(from as int),
            sum == byte_sum(tail.take(i - from)),
        decreases s@.len() - i,
    {
        assert(tail.take(i - from + 1).drop_last() =~= tail.take(i - from));
        sum = sum.wrapping_add(s[i]);
        i += 1;
    }
    assert(tail.take(s@.len() - from) =~= tail);
    0u8.wrapping_sub(sum)
}

/// Fills a block up to 127 bytes and closes it with its checksum.
fn close_block(s: Vec<u8>) -> (r: Vec<u8>)
    requires
        s@.len() <= 127,
    ensures
        r@ == block(s@),
        r@.len() == 128,
{
    let mut b: Vec<u8> = s;
    let n: usize = b.len();
    push_zeros(&mut b, 127 - n);
    let sum: u8 = checksum(&b, 0);
    assert(b@.skip(0) =~= b@);
    b.push(sum);
    b
}

proof fn lemma_slots_len(ds: Seq<Seq<u8>>, n: nat)
    requires
        ds.len() == n,
        forall|i: int| 0 <= i < ds.len() ==> (#[trigger] ds[i]).len() == 18,
    ensures
        joined(ds).len() == 18 * n,
    decreases n,
{
    if n > 0 {
        assert forall|i: int| 0 <= i < ds.len() - 1 implies (#[trigger] ds.drop_last()[i]).len() == 18 by {
            assert(ds.drop_last()[i] == ds[i]);
        }
        lemma_slots_len(ds.drop_last(), (n - 1) as nat);
        assert(ds[ds.len() - 1].len() == 18);
    }
}

/// Every descriptor has 18 bytes.
pub open spec fn all_18(ds: Seq<Seq<u8>>) -> bool {
    forall|i: int| 0 <= i < ds.len() ==> (#[trigger] ds[i]).len() == 18
}

proof fn lemma_slots(ds: Seq<Seq<u8>>, from: int, to: int)
    requires
        0 <= from <= to,
        all_18(ds),
    ensures
        slots(ds, from, to).len() == 18 * (to - from),
{
    let whole = Seq::new(
        (to - from) as nat,
        |i: int|
            if from + i < ds.len() {
                ds[from + i]
            } else {
                desc_unused()
            },
    );
    assert forall|i: int| 0 <= i < whole.len() implies (#[trigger] whole[i]).len() == 18 by {
        if from + i < ds.len() {
            assert(ds[from + i].len() == 18);
        }
    }
    lemma_slots_len(whole, (to - from) as nat);
}

/// What the generator works out before it writes the blocks.
struct Plan {
    m: Ghost<Monitor>,
    x: u32,
    y: u32,
    wmm: u32,
    hmm: u32,
    t: Timings,
    large: bool,
    modes: ModeList,
    descs: Vec<Vec<u8>>,
}

impl Plan {
    spec fn wf(self) -> bool {
        let m = self.m@;
        &&& self.x == m.x()
        &&& self.y == m.y()
        &&& self.wmm == m.wmm()
        &&& self.hmm == m.hmm()
        &&& self.t == m.timings()
        &&& self.large == m.large()
        &&& self.modes@ == m.modes()
        &&& self.modes@.established.len() == 3
        &&& self.modes@.std.len() <= 16
        &&& self.modes@.cta.len() <= 7
        &&& descs_view(self.descs@) == m.descriptors()
        &&& all_18(m.descriptors())
    }

    /// A length from a resolution at 100 DPI.
    fn dpi_to_mm(res: u32) -> (r: u32)
        ensures
            r == res * 254 / 10 / 100,
    {
        (res as u64 * 254 / 10 / 100) as u32
    }

    fn of(info: &EdidInfo, prefx: u32, prefy: u32) -> (r: Self)
        ensures
            r.wf(),
            r.m@ == (Monitor { prefx, prefy, ..info@ }),
    {
        let ghost m = Monitor { prefx, prefy, ..info@ };
        let x: u32 = if prefx == 0 {
            1280
        } else {
            prefx
        };
        let y: u32 = if prefy == 0 {
            800
        } else {
            prefy
        };
        let given: bool = info.width_mm != 0 && info.height_mm != 0;
        let wmm: u32 = if given {
            info.width_mm as u32
        } else {
            Self::dpi_to_mm(x)
        };
        let hmm: u32 = if given {
            info.height_mm as u32
        } else {
            Self::dpi_to_mm(y)
        };
        let refresh: u32 = if info.refresh_mhz == 0 {
            75_000
        } else {
            info.refresh_mhz
        };
        let t: Timings = timings(refresh, x, y);
        let large: bool = x >= 4096 || y >= 4096 || t.clock >= 65536;
        let modes: ModeList = ModeList::of(info.maxx, info.maxy);
        let mut descs: Vec<Vec<u8>> = Vec::new();
        if !large {
            descs.push(timing_desc(t, x, y, wmm, hmm));
        }
        descs.push(xtra3_desc(&modes.xtra3));
        descs.push(limits_desc());
        descs.push(text_desc(0xfc, info.name.as_str().as_bytes()));
        if let Some(s) = &info.serial {
            descs.push(text_desc(0xff, s.as_str().as_bytes()));
        }
        proof {
            assert(descs_view(descs@) =~= m.descriptors());
            assert forall|i: int| 0 <= i < m.descriptors().len() implies (
            #[trigger] m.descriptors()[i]).len() == 18 by {
                assert(descs@[i]@.len() == 18);
            }
        }
        Plan { m: Ghost(m), x, y, wmm, hmm, t, large, modes, descs }
    }

    fn base(&self, info: &EdidInfo, extensions: u8) -> (r: Vec<u8>)
        requires
            self.wf(),
            self.m@ == (Monitor { prefx: self.m@.prefx, prefy: self.m@.prefy, ..info@ }),
        ensures
            r@ == self.m@.base_block(extensions),
            r@.len() == 128,
    {
        let ghost m = self.m@;
        let mut e: Vec<u8> = Vec::new();
        let start: [u8; 8] = [0x00, 0xff, 0xff, 0xff, 0xff, 0xff, 0xff, 0x00];
        push_bytes(&mut e, &start);
        let v0: u16 = (info.vendor[0].wrapping_sub(64) & 0x1f) as u16;
        let v1: u16 = (info.vendor[1].wrapping_sub(64) & 0x1f) as u16;
        let v2: u16 = (info.vendor[2].wrapping_sub(64) & 0x1f) as u16;
        push_be16(&mut e, (v0 << 10) | (v1 << 5) | v2);
        let product: [u8; 2] = [0x34, 0x12];
        push_bytes(&mut e, &product);
        let serial: u32 = match &info.serial {
            Some(s) => atoi(s.as_str()),
            None => 0,
        };
        push_le32(&mut e, serial);
        let date: [u8; 4] = [42, 24, 1, 4];
        push_bytes(&mut e, &date);
        assert(e@ =~= m.identity());
        let display: [u8; 15] = [
            0xa5,
            (self.wmm / 10) as u8,
            (self.hmm / 10) as u8,
            120,
            0x06,
            0xee,
            0x91,
            0xa3,
            0x54,
            0x4c,
            0x99,
            0x26,
            0x0f,
            0x50,
            0x54,
        ];
        push_bytes(&mut e, &display);
        assert(display@ =~= m.display());
        push_bytes(&mut e, self.modes.established.as_slice());
        push_bytes(&mut e, self.modes.std.as_slice());
        let ghost before = e@;
        let mut i: usize = self.modes.std.len();
        while i < 16
            invariant
                self.modes.std@.len() <= i <= 16,
                e@ =~= before + Seq::new((i - self.modes.std@.len()) as nat, |i: int| 1u8),
            decreases 16 - i,
        {
            e.push(1);
            i += 1;
        }
        push_slots(&mut e, &self.descs, 0, 4);
        e.push(extensions);
        proof {
            lemma_slots(m.descriptors(), 0, 4);
            assert(e@ =~= m.identity() + m.display() + m.modes().established + std_filled(
                m.modes().std,
            ) + slots(m.descriptors(), 0, 4) + seq![extensions]);
        }
        close_block(e)
    }

    fn cta(&self) -> (r: Vec<u8>)
        requires
            self.wf(),
        ensures
            r@ == self.m@.cta_block(),
            r@.len() == 128,
    {
        let ghost m = self.m@;
        let k: u8 = self.modes.cta.len() as u8;
        let mut e: Vec<u8> = vec![0x02, 0x03, 5 + k, 0x00, 0x40 + k];
        push_bytes(&mut e, self.modes.cta.as_slice());
        push_slots(&mut e, &self.descs, 4, 10);
        proof {
            let codes = m.modes().cta;
            lemma_slots(m.descriptors(), 4, 10);
            assert(e@ =~= seq![
                0x02u8,
                0x03,
                (5 + codes.len()) as u8,
                0x00,
                (0x40 + codes.len()) as u8,
            ] + codes + slots(m.descriptors(), 4, 10));
        }
        close_block(e)
    }

    fn displayid(&self) -> (r: Vec<u8>)
        requires
            self.wf(),
        ensures
            r@ == self.m@.displayid_block(),
            r@.len() == 128,
    {
        let ghost m = self.m@;
        let t: Timings = self.t;
        let mut e: Vec<u8> = vec![0x70, 0x13, 23, 0x03, 0x00, 0x03, 0x00, 0x14];
        let mut clock: Vec<u8> = Vec::new();
        push_le32(&mut clock, t.clock as u32);
        assert(clock@ =~= le32_bytes(t.clock as u32));
        clock.truncate(3);
        push_bytes(&mut e, clock.as_slice());
        e.push(0x88);
        push_le16(&mut e, self.x.wrapping_sub(1) as u16);
        push_le16(&mut e, t.xblank.wrapping_sub(1) as u16);
        push_le16(&mut e, t.xfront.wrapping_sub(1) as u16);
        push_le16(&mut e, t.xsync.wrapping_sub(1) as u16);
        push_le16(&mut e, self.y.wrapping_sub(1) as u16);
        push_le16(&mut e, t.yblank.wrapping_sub(1) as u16);
        push_le16(&mut e, t.yfront.wrapping_sub(1) as u16);
        push_le16(&mut e, t.ysync.wrapping_sub(1) as u16);
        let ghost s = seq![0x70u8, 0x13, 23, 0x03, 0x00, 0x03, 0x00, 0x14] + le32_bytes(
            t.clock as u32,
        ).take(3) + seq![0x88u8] + le16_bytes(m.x().wrapping_sub(1) as u16) + le16_bytes(
            t.xblank.wrapping_sub(1) as u16,
        ) + le16_bytes(t.xfront.wrapping_sub(1) as u16) + le16_bytes(
            t.xsync.wrapping_sub(1) as u16,
        ) + le16_bytes(m.y().wrapping_sub(1) as u16) + le16_bytes(
            t.yblank.wrapping_sub(1) as u16,
        ) + le16_bytes(t.yfront.wrapping_sub(1) as u16) + le16_bytes(
            t.ysync.wrapping_sub(1) as u16,
        );
        assert(e@ =~= s);
        let sum: u8 = checksum(&e, 1);
        e.push(sum);
        close_block(e)
    }
}

/// The EDID of a monitor whose preferred mode is `prefx` by `prefy`.
pub fn generate_for(info: &EdidInfo, prefx: u32, prefy: u32, size: usize) -> (r: Vec<u8>)
    ensures
        r@ == (Monitor { prefx, prefy, ..info@ }).edid(size as nat),
        is_whole(
            r@,
            size as nat,
            block_count(size as nat, (Monitor { prefx, prefy, ..info@ }).large()),
        ),
{
    proof {
        law_edid_is_whole(Monitor { prefx, prefy, ..info@ }, size as nat);
    }
    let plan = Plan::of(info, prefx, prefy);
    let cta: bool = size >= 256;
    let did: bool = size >= 384 && plan.large;
    let extensions: u8 = if did {
        2
    } else if cta {
        1
    } else {
        0
    };
    let mut e: Vec<u8> = plan.base(info, extensions);
    if cta {
        let block: Vec<u8> = plan.cta();
        push_bytes(&mut e, block.as_slice());
    }
    if did {
        let block: Vec<u8> = plan.displayid();
        push_bytes(&mut e, block.as_slice());
    }
    if size > e.len() {
        let more: usize = size - e.len();
        push_zeros(&mut e, more);
    }
    e
}

/// Generates the EDID in a buffer of `size` bytes (1024 for virtio-gpu): 128
/// bytes, 256 with the CTA extension (size >= 256), 384 with DisplayID.
pub fn generate(info: &EdidInfo, size: usize) -> (r: Vec<u8>)
    ensures
        r@ == info@.edid(size as nat),
        is_whole(r@, size as nat, block_count(size as nat, info@.large())),
{
    generate_for(info, info.prefx, info.prefy, size)
}

/// Length of the EDID in the buffer (128 per block), 0 if it is not an EDID.
pub fn size(e: &[u8]) -> (r: usize)
    ensures
        r == stated_len(e@),
{
    if e.len() < 128 || e[0] != 0 || e[1] != 0xff {
        return 0;
    }
    128 * (e[126] as usize + 1)
}

proof fn lemma_byte_sum(s: Seq<u8>)
    ensures
        0 <= byte_sum(s) < 256,
    decreases s.len(),
{
    if s.len() > 0 {
        lemma_byte_sum(s.drop_last());
    }
}

/// The bytes of a block add up to zero.
pub proof fn law_block_sums_to_zero(s: Seq<u8>)
    requires
        s.len() <= 127,
    ensures
        block(s).len() == 128,
        byte_sum(block(s)) == 0,
{
    let body = s + zeros((127 - s.len()) as nat);
    lemma_byte_sum(body);
    assert(block(s).drop_last() =~= body);
}

proof fn lemma_mode(k: int)
    requires
        0 <= k < 22,
    ensures
        MODES@.len() == 22,
        ({
            let m = MODES@[k];
            &&& m.2 == 0 || 7 <= m.2 <= 11 || 35 <= m.2 <= 36
            &&& k >= 7 ==> m.4 == 0
        }),
{
    let modes: [(u32, u32, u8, u8, u8); 22] = MODES;
    assert(forall|k: int|
        0 <= k < 22 ==> {
            let m = #[trigger] modes@[k];
            &&& m.2 == 0 || 7 <= m.2 <= 11 || 35 <= m.2 <= 36
            &&& k >= 7 ==> m.4 == 0
        });
}

proof fn lemma_modes(n: int, maxx: u32, maxy: u32)
    requires
        0 <= n <= 22,
    ensures
        ({
            let b = modes_added(MODES@.take(n), maxx, maxy);
            &&& b.established.len() == 3
            &&& b.xtra3.len() == 6
            &&& b.std.len() <= 16
            &&& b.std.len() % 2 == 0
            &&& b.cta.len() <= n
            &&& b.cta.len() <= 7
        }),
    decreases n,
{
    lemma_mode(0);
    if n == 0 {
        assert(MODES@.take(0) =~= Seq::<(u32, u32, u8, u8, u8)>::empty());
    } else {
        lemma_modes(n - 1, maxx, maxy);
        lemma_mode(n - 1);
        assert(MODES@.take(n).drop_last() =~= MODES@.take(n - 1));
        assert(MODES@.take(n).last() == MODES@[n - 1]);
    }
}

proof fn lemma_descriptors(m: Monitor)
    requires
        m.modes().xtra3.len() == 6,
    ensures
        all_18(m.descriptors()),
{
    let name = encode_utf8(m.name);
    assert(desc_text(0xfc, name).len() == 18);
    assert(desc_xtra3(m.modes().xtra3).len() == 18);
    assert(desc_limits().len() == 18);
    assert(desc_timing(m.timings(), m.x(), m.y(), m.wmm(), m.hmm()).len() == 18);
    if let Some(s) = m.serial {
        assert(desc_text(0xff, encode_utf8(s)).len() == 18);
    }
}

proof fn lemma_blocks(m: Monitor, extensions: u8)
    ensures
        m.base_block(extensions).len() == 128,
        m.base_block(extensions)[0] == 0,
        m.base_block(extensions)[1] == 0xff,
        m.base_block(extensions)[126] == extensions,
        byte_sum(m.base_block(extensions)) == 0,
        m.cta_block().len() == 128,
        byte_sum(m.cta_block()) == 0,
        m.displayid_block().len() == 128,
        byte_sum(m.displayid_block()) == 0,
{
    lemma_mode(0);
    assert(MODES@.take(22) =~= MODES@);
    lemma_modes(22, m.maxx, m.maxy);
    lemma_descriptors(m);
    lemma_slots(m.descriptors(), 0, 4);
    lemma_slots(m.descriptors(), 4, 10);
    let front = m.identity() + m.display() + m.modes().established + std_filled(m.modes().std)
        + slots(m.descriptors(), 0, 4);
    let s = front + seq![extensions];
    assert(front.len() == 126);
    assert(front[0] == 0 && front[1] == 0xff);
    law_block_sums_to_zero(s);
    assert(block(s)[0] == s[0] && block(s)[1] == s[1] && block(s)[126] == s[126]);
    let codes = m.modes().cta;
    law_block_sums_to_zero(
        seq![0x02u8, 0x03, (5 + codes.len()) as u8, 0x00, (0x40 + codes.len()) as u8] + codes
            + slots(m.descriptors(), 4, 10),
    );
    let t = m.timings();
    let d = seq![0x70u8, 0x13, 23, 0x03, 0x00, 0x03, 0x00, 0x14] + le32_bytes(
        t.clock as u32,
    ).take(3) + seq![0x88u8] + le16_bytes(m.x().wrapping_sub(1) as u16) + le16_bytes(
        t.xblank.wrapping_sub(1) as u16,
    ) + le16_bytes(t.xfront.wrapping_sub(1) as u16) + le16_bytes(t.xsync.wrapping_sub(1) as u16)
        + le16_bytes(m.y().wrapping_sub(1) as u16) + le16_bytes(t.yblank.wrapping_sub(1) as u16)
        + le16_bytes(t.yfront.wrapping_sub(1) as u16) + le16_bytes(t.ysync.wrapping_sub(1) as u16);
    law_block_sums_to_zero(d.push(checksum_of(d.skip(1))));
}

/// The EDID in a buffer of `size` bytes: the buffer has that size (or its blocks
/// do not fit, and it has theirs), it says how many blocks it has (a second one
/// from 256 bytes on, a third from 384 bytes on for a large screen), each of them
/// sums to zero, and the rest of the buffer is zero.
pub proof fn law_edid_is_whole(m: Monitor, size: nat)
    ensures
        is_whole(m.edid(size), size, block_count(size, m.large())),
{
    let n = block_count(size, m.large());
    let base = m.base_block((n - 1) as u8);
    lemma_blocks(m, (n - 1) as u8);
    let e = m.edid(size);
    assert(block_of(e, 0) =~= base);
    if n >= 2 {
        assert(block_of(e, 1) =~= m.cta_block());
    }
    if n == 3 {
        assert(block_of(e, 2) =~= m.displayid_block());
    }
}

} // verus!
