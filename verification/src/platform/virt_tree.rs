//! The device tree of the virt platform, with one CPU.
use vstd::prelude::*;
use crate::bytes::{be32_bytes, copy_into, le64_bytes, patched, push_be32, push_le64, push_zeros, zeros};
use crate::platform::fdt::{Fdt, FdtBuilder, strs_view};
use crate::platform::map::{GICD_BASE, GICD_SIZE, GICR_BASE, GICR_SIZE_PER_CPU, GPIO_BASE, GPIO_SIZE, GPIO_SPI, PPI_HYP_TIMER, PPI_PTIMER, PPI_SEC_PTIMER, PPI_VTIMER, RAM_BASE, RTC_BASE, RTC_SIZE, RTC_SPI, UART_BASE, UART_CLOCK_HZ, UART_SIZE, UART_SPI, VIRTIO_BASE, VIRTIO_SLOTS, VIRTIO_SLOT_SIZE, VIRTIO_SPI_BASE};
use crate::platform::pl061::POWER_KEY_LINE;
use crate::text::{hex_digit, hexadecimal, push_hexadecimal, push_text};

verus! {

/// Parameters of the device tree of the virt platform (one CPU).
#[derive(Clone, Debug, PartialEq, Eq)]
pub struct VirtDtbConfig {
    /// Size of the RAM from `map::RAM_BASE` on.
    pub ram_size: u64,
    /// Command line of the kernel (`/chosen/bootargs`).
    pub bootargs: String,
    /// Initramfs: physical addresses of its start and its (excluded) end.
    pub initrd: Option<(u64, u64)>,
    /// PSCI conduit: "hvc" (the default) or "smc".
    pub psci_method: &'static str,
    /// Fixed clock of the PL011 in Hz.
    pub uart_clock_hz: u32,
    /// Seed of `/chosen/rng-seed` (32 bytes) and `/chosen/kaslr-seed`: both
    /// derive from this number, so that the boot stays deterministic. `None`
    /// for no seeds.
    pub seed: Option<u64>,
    /// Total size of the DTB (`totalsize`), with free space at its end. 0 for
    /// none.
    pub pad_to: usize,
}

/// What a [`VirtDtbConfig`] holds.
#[verifier::ext_equal]
pub struct DtbParams {
    pub ram_size: u64,
    pub bootargs: Seq<char>,
    pub initrd: Option<(u64, u64)>,
    pub psci_method: Seq<char>,
    pub uart_clock_hz: u32,
    pub seed: Option<u64>,
    pub pad_to: usize,
}

impl View for VirtDtbConfig {
    type V = DtbParams;

    open spec fn view(&self) -> DtbParams {
        DtbParams {
            ram_size: self.ram_size,
            bootargs: self.bootargs@,
            initrd: self.initrd,
            psci_method: self.psci_method@,
            uart_clock_hz: self.uart_clock_hz,
            seed: self.seed,
            pad_to: self.pad_to,
        }
    }
}

impl Default for VirtDtbConfig {
    fn default() -> (r: Self)
        ensures
            r@ == (DtbParams {
                ram_size: 0x4000_0000,
                bootargs: "console=ttyAMA0 earlycon"@,
                initrd: None,
                psci_method: "hvc"@,
                uart_clock_hz: UART_CLOCK_HZ,
                seed: None,
                pad_to: 0,
            }),
    {
        let mut bootargs: String = String::new();
        push_text(&mut bootargs, "console=ttyAMA0 earlycon");
        assert(bootargs@ =~= "console=ttyAMA0 earlycon"@);
        VirtDtbConfig {
            ram_size: 0x4000_0000,
            bootargs,
            initrd: None,
            psci_method: "hvc",
            uart_clock_hz: UART_CLOCK_HZ,
            seed: None,
            pad_to: 0,
        }
    }
}

/// Size of the device tree of QEMU virt.
pub const QEMU_FDT_SIZE: usize = 0x10_0000;
/// Phandle of the GIC in the device tree of the platform.
pub const PHANDLE_GIC: u32 = 1;
/// Phandle of the fixed clock of the PL011/PL031/PL061.
pub const PHANDLE_CLK: u32 = 2;
/// Phandle of the GPIO PL061 (used by `gpio-keys`).
pub const PHANDLE_GPIO: u32 = 3;
/// KEY_POWER of Linux (`linux,code` of the power key).
pub const KEY_POWER: u32 = 116;
pub const GIC_SPI: u32 = 0;
pub const GIC_PPI: u32 = 1;
pub const IRQ_EDGE_RISING: u32 = 1;
pub const IRQ_LEVEL_HIGH: u32 = 4;
/// Name of the node of the UART (in `stdout-path` too).
pub const UART_NODE: &'static str = "pl011@9000000";

/// State of splitmix64 after `n` steps.
pub open spec fn seed_state(seed: u64, n: nat) -> u64
    decreases n,
{
    if n == 0 {
        seed
    } else {
        seed_state(seed, (n - 1) as nat).wrapping_add(0x9E37_79B9_7F4A_7C15)
    }
}

/// Output of splitmix64 for a state.
pub open spec fn mixed(x: u64) -> u64 {
    let z = (x ^ (x >> 30)).wrapping_mul(0xBF58_476D_1CE4_E5B9);
    let z = (z ^ (z >> 27)).wrapping_mul(0x94D0_49BB_1331_11EB);
    z ^ (z >> 31)
}

/// The first `n` words of splitmix64, little endian.
pub open spec fn seed_words(seed: u64, n: nat) -> Seq<u8>
    decreases n,
{
    if n == 0 {
        Seq::empty()
    } else {
        seed_words(seed, (n - 1) as nat) + le64_bytes(mixed(seed_state(seed, n)))
    }
}

/// splitmix64: deterministic bytes for the seeds of the device tree.
pub fn seed_bytes(seed: u64, n: usize) -> (r: Vec<u8>)
    ensures
        r@ == seed_words(seed, (n as nat + 7) / 8).take(n as int),
{
    let mut x: u64 = seed;
    let mut out: Vec<u8> = Vec::new();
    let ghost mut words: nat = 0;
    while out.len() < n
        invariant
            x == seed_state(seed, words),
            out@ == seed_words(seed, words),
            out@.len() == 8 * words,
            8 * words < n + 8,
        decreases n + 8 - out@.len(),
    {
        x = x.wrapping_add(0x9E37_79B9_7F4A_7C15);
        let a: u64 = (x ^ (x >> 30)).wrapping_mul(0xBF58_476D_1CE4_E5B9);
        let b: u64 = (a ^ (a >> 27)).wrapping_mul(0x94D0_49BB_1331_11EB);
        push_le64(&mut out, b ^ (b >> 31));
        proof {
            words = words + 1;
        }
    }
    assert(words == (n as nat + 7) / 8);
    out.truncate(n);
    out
}

/// Neither empty nor with a NUL: fit for a name.
pub open spec fn plain(s: Seq<char>) -> bool {
    s.len() > 0 && !s.contains('\0')
}

/// A good state stays good, `by` nodes deeper.
pub open spec fn calm(t: Fdt, u: Fdt, by: int) -> bool {
    &&& t.error is None ==> u.error is None
    &&& u.roots == t.roots
    &&& u.depth == t.depth + by
}

proof fn lemma_hexadecimal_is_plain(n: nat)
    ensures
        plain(hexadecimal(n)),
    decreases n,
{
    if n >= 16 {
        lemma_hexadecimal_is_plain(n / 16);
    }
    assert(forall|d: nat| d < 16 ==> #[trigger] hex_digit(d) != '\0');
    let s = hexadecimal(n);
    assert forall|i: int| 0 <= i < s.len() implies s[i] != '\0' by {
        if n >= 16 && i < s.len() - 1 {
            assert(s[i] == hexadecimal(n / 16)[i]);
            assert(hexadecimal(n / 16).contains(hexadecimal(n / 16)[i]));
        }
    }
}

/// `prefix` and the address `n` in hexadecimal.
pub open spec fn at_address(prefix: Seq<char>, n: u64) -> Seq<char> {
    prefix + hexadecimal(n as nat)
}

fn address_name(prefix: &str, n: u64) -> (r: String)
    requires
        plain(prefix@),
    ensures
        r@ == at_address(prefix@, n),
        plain(r@),
{
    let mut s: String = String::new();
    push_text(&mut s, prefix);
    push_hexadecimal(&mut s, n);
    assert(s@ =~= at_address(prefix@, n));
    proof {
        lemma_hexadecimal_is_plain(n as nat);
        assert forall|i: int| 0 <= i < s@.len() implies s@[i] != '\0' by {
            if i < prefix@.len() {
                assert(prefix@.contains(prefix@[i]));
            } else {
                let h = hexadecimal(n as nat);
                assert(s@[i] == h[i - prefix@.len()]);
                assert(h.contains(h[i - prefix@.len()]));
            }
        }
    }
    s
}

fn open(b: &mut FdtBuilder, name: &str)
    requires
        plain(name@),
        0 < old(b)@.depth < 8,
    ensures
        final(b)@ == old(b)@.begun(name@),
        calm(old(b)@, final(b)@, 1),
{
    reveal(Fdt::begun);
    b.begin_node(name);
}

fn close(b: &mut FdtBuilder)
    requires
        0 < old(b)@.depth < 8,
    ensures
        final(b)@ == old(b)@.ended(),
        calm(old(b)@, final(b)@, -1),
{
    reveal(Fdt::ended);
    b.end_node();
}

fn bytes(b: &mut FdtBuilder, name: &str, v: &[u8])
    requires
        plain(name@),
        0 < old(b)@.depth < 8,
    ensures
        final(b)@ == old(b)@.prop(name@, v@),
        calm(old(b)@, final(b)@, 0),
{
    reveal(Fdt::prop);
    b.prop_bytes(name, v);
}

fn empty(b: &mut FdtBuilder, name: &str)
    requires
        plain(name@),
        0 < old(b)@.depth < 8,
    ensures
        final(b)@ == old(b)@.prop_empty(name@),
        calm(old(b)@, final(b)@, 0),
{
    reveal(Fdt::prop);
    b.prop_empty(name);
}

fn word(b: &mut FdtBuilder, name: &str, v: u32)
    requires
        plain(name@),
        0 < old(b)@.depth < 8,
    ensures
        final(b)@ == old(b)@.prop_u32(name@, v),
        calm(old(b)@, final(b)@, 0),
{
    reveal(Fdt::prop);
    b.prop_u32(name, v);
}

fn long(b: &mut FdtBuilder, name: &str, v: u64)
    requires
        plain(name@),
        0 < old(b)@.depth < 8,
    ensures
        final(b)@ == old(b)@.prop_u64(name@, v),
        calm(old(b)@, final(b)@, 0),
{
    reveal(Fdt::prop);
    b.prop_u64(name, v);
}

fn words(b: &mut FdtBuilder, name: &str, vs: &[u32])
    requires
        plain(name@),
        0 < old(b)@.depth < 8,
    ensures
        final(b)@ == old(b)@.prop_u32s(name@, vs@),
        calm(old(b)@, final(b)@, 0),
{
    reveal(Fdt::prop);
    b.prop_u32_list(name, vs);
}

fn longs(b: &mut FdtBuilder, name: &str, vs: &[u64])
    requires
        plain(name@),
        0 < old(b)@.depth < 8,
    ensures
        final(b)@ == old(b)@.prop_u64s(name@, vs@),
        calm(old(b)@, final(b)@, 0),
{
    reveal(Fdt::prop);
    b.prop_u64_list(name, vs);
}

fn text(b: &mut FdtBuilder, name: &str, s: &str)
    requires
        plain(name@),
        !s@.contains('\0'),
        0 < old(b)@.depth < 8,
    ensures
        final(b)@ == old(b)@.prop_str(name@, s@),
        calm(old(b)@, final(b)@, 0),
{
    reveal(Fdt::prop);
    reveal_with_fuel(Fdt::checked, 2);
    b.prop_str(name, s);
}

fn two_texts(b: &mut FdtBuilder, name: &str, s: &str, t: &str)
    requires
        plain(name@),
        !s@.contains('\0'),
        !t@.contains('\0'),
        0 < old(b)@.depth < 8,
    ensures
        final(b)@ == old(b)@.prop_strs(name@, seq![s@, t@]),
        calm(old(b)@, final(b)@, 0),
{
    reveal(Fdt::prop);
    reveal_with_fuel(Fdt::checked, 3);
    let both: [&str; 2] = [s, t];
    assert(strs_view(both@) =~= seq![s@, t@]);
    assert(seq![s@, t@].drop_last() =~= seq![s@]);
    b.prop_strs(name, &both);
}

/// The `reg` property of one region.
pub open spec fn reg_prop(t: Fdt, base: u64, size: u64) -> Fdt {
    t.prop_u64s("reg"@, seq![base, size])
}

fn reg(b: &mut FdtBuilder, base: u64, size: u64)
    requires
        0 < old(b)@.depth < 8,
    ensures
        final(b)@ == reg_prop(old(b)@, base, size),
        calm(old(b)@, final(b)@, 0),
{
    proof {
        reveal_strlit("reg");
    }
    let pair: [u64; 2] = [base, size];
    assert(pair@ =~= seq![base, size]);
    longs(b, "reg", &pair);
}

/// Base address of the virtio-mmio slot `k`.
pub open spec fn slot_base(k: u32) -> u64 {
    (VIRTIO_BASE + k * VIRTIO_SLOT_SIZE) as u64
}

/// The path of the UART, in `stdout-path`.
pub open spec fn stdout_path() -> Seq<char> {
    "/"@ + UART_NODE@
}

/// `/chosen`: the seeds, the command line, the console and the initramfs.
pub open spec fn chosen_node(t: Fdt, cfg: DtbParams) -> Fdt {
    let t = t.begun("chosen"@);
    let t = match cfg.seed {
        Some(seed) => t.prop("rng-seed"@, seed_words(seed, 5).take(32)).prop(
            "kaslr-seed"@,
            seed_words(seed, 5).skip(32),
        ),
        None => t,
    };
    let t = t.prop_str("bootargs"@, cfg.bootargs).prop_str("stdout-path"@, stdout_path());
    let t = match cfg.initrd {
        Some((start, end)) => t.prop_u64("linux,initrd-start"@, start).prop_u64(
            "linux,initrd-end"@,
            end,
        ),
        None => t,
    };
    t.ended()
}

fn put_seeds(b: &mut FdtBuilder, seed: u64)
    requires
        0 < old(b)@.depth < 8,
    ensures
        final(b)@ == old(b)@.prop("rng-seed"@, seed_words(seed, 5).take(32)).prop(
            "kaslr-seed"@,
            seed_words(seed, 5).skip(32),
        ),
        calm(old(b)@, final(b)@, 0),
{
    proof {
        reveal_strlit("rng-seed");
        reveal_strlit("kaslr-seed");
        reveal_with_fuel(seed_words, 6);
    }
    let all: Vec<u8> = seed_bytes(seed, 40);
    assert(all@ =~= seed_words(seed, 5));
    let (first, rest) = all.as_slice().split_at(32);
    assert(first@ =~= seed_words(seed, 5).take(32));
    assert(rest@ =~= seed_words(seed, 5).skip(32));
    bytes(b, "rng-seed", first);
    bytes(b, "kaslr-seed", rest);
}

fn put_chosen_node(b: &mut FdtBuilder, cfg: &VirtDtbConfig)
    requires
        !cfg@.bootargs.contains('\0'),
        old(b)@.depth == 1,
    ensures
        final(b)@ == chosen_node(old(b)@, cfg@),
        calm(old(b)@, final(b)@, 0),
{
    proof {
        reveal_strlit("chosen");
        reveal_strlit("bootargs");
        reveal_strlit("stdout-path");
        reveal_strlit("linux,initrd-start");
        reveal_strlit("linux,initrd-end");
        reveal_strlit("/");
        reveal_strlit("pl011@9000000");
    }
    open(b, "chosen");
    if let Some(seed) = cfg.seed {
        put_seeds(b, seed);
    }
    text(b, "bootargs", cfg.bootargs.as_str());
    let mut path: String = String::new();
    push_text(&mut path, "/");
    push_text(&mut path, UART_NODE);
    assert(path@ =~= stdout_path());
    text(b, "stdout-path", path.as_str());
    if let Some((start, end)) = cfg.initrd {
        long(b, "linux,initrd-start", start);
        long(b, "linux,initrd-end", end);
    }
    close(b);
}

/// `/memory`.
pub open spec fn memory_node(t: Fdt, cfg: DtbParams) -> Fdt {
    let t = t.begun(at_address("memory@"@, RAM_BASE));
    let t = t.prop_str("device_type"@, "memory"@);
    let t = reg_prop(t, RAM_BASE, cfg.ram_size);
    t.ended()
}

fn put_memory_node(b: &mut FdtBuilder, cfg: &VirtDtbConfig)
    requires
        old(b)@.depth == 1,
    ensures
        final(b)@ == memory_node(old(b)@, cfg@),
        calm(old(b)@, final(b)@, 0),
{
    proof {
        reveal_strlit("memory@");
        reveal_strlit("device_type");
        reveal_strlit("memory");
    }
    let name: String = address_name("memory@", RAM_BASE);
    open(b, name.as_str());
    text(b, "device_type", "memory");
    reg(b, RAM_BASE, cfg.ram_size);
    close(b);
}


/// `/cpus` with its one CPU.
pub open spec fn cpus_node(t: Fdt) -> Fdt {
    let t = t.begun("cpus"@);
    let t = t.prop_u32("#address-cells"@, 1);
    let t = t.prop_u32("#size-cells"@, 0);
    let t = t.begun("cpu@0"@);
    let t = t.prop_str("device_type"@, "cpu"@);
    let t = t.prop_str("compatible"@, "arm,cortex-a53"@);
    let t = t.prop_u32("reg"@, 0);
    let t = t.prop_str("enable-method"@, "psci"@);
    let t = t.ended();
    t.ended()
}

fn put_cpus_node(b: &mut FdtBuilder)
    requires
        old(b)@.depth == 1,
    ensures
        final(b)@ == cpus_node(old(b)@),
        calm(old(b)@, final(b)@, 0),
{
    proof {
        reveal_strlit("cpus");
        reveal_strlit("#address-cells");
        reveal_strlit("#size-cells");
        reveal_strlit("cpu@0");
        reveal_strlit("device_type");
        reveal_strlit("cpu");
        reveal_strlit("compatible");
        reveal_strlit("arm,cortex-a53");
        reveal_strlit("reg");
        reveal_strlit("enable-method");
        reveal_strlit("psci");
    }
    open(b, "cpus");
    word(b, "#address-cells", 1);
    word(b, "#size-cells", 0);
    open(b, "cpu@0");
    text(b, "device_type", "cpu");
    text(b, "compatible", "arm,cortex-a53");
    word(b, "reg", 0);
    text(b, "enable-method", "psci");
    close(b);
    close(b);
}


/// `/psci`.
pub open spec fn psci_node(t: Fdt, cfg: DtbParams) -> Fdt {
    let t = t.begun("psci"@);
    let t = t.prop_strs("compatible"@, seq!["arm,psci-1.0"@, "arm,psci-0.2"@]);
    let t = t.prop_str("method"@, cfg.psci_method);
    t.ended()
}

fn put_psci_node(b: &mut FdtBuilder, cfg: &VirtDtbConfig)
    requires
        !cfg@.psci_method.contains('\0'),
        old(b)@.depth == 1,
    ensures
        final(b)@ == psci_node(old(b)@, cfg@),
        calm(old(b)@, final(b)@, 0),
{
    proof {
        reveal_strlit("psci");
        reveal_strlit("compatible");
        reveal_strlit("arm,psci-1.0");
        reveal_strlit("arm,psci-0.2");
        reveal_strlit("method");
    }
    open(b, "psci");
    two_texts(b, "compatible", "arm,psci-1.0", "arm,psci-0.2");
    text(b, "method", cfg.psci_method);
    close(b);
}


/// `/timer`. The number of a private interrupt in the tree is its INTID less 16.
pub open spec fn timer_node(t: Fdt) -> Fdt {
    let t = t.begun("timer"@);
    let t = t.prop_str("compatible"@, "arm,armv8-timer"@);
    let t = t.prop_u32s("interrupts"@, seq![GIC_PPI, (PPI_SEC_PTIMER - 16) as u32, IRQ_LEVEL_HIGH, GIC_PPI, (PPI_PTIMER - 16) as u32, IRQ_LEVEL_HIGH, GIC_PPI, (PPI_VTIMER - 16) as u32, IRQ_LEVEL_HIGH, GIC_PPI, (PPI_HYP_TIMER - 16) as u32, IRQ_LEVEL_HIGH]);
    let t = t.prop_empty("always-on"@);
    t.ended()
}

fn put_timer_node(b: &mut FdtBuilder)
    requires
        old(b)@.depth == 1,
    ensures
        final(b)@ == timer_node(old(b)@),
        calm(old(b)@, final(b)@, 0),
{
    proof {
        reveal_strlit("timer");
        reveal_strlit("compatible");
        reveal_strlit("arm,armv8-timer");
        reveal_strlit("interrupts");
        reveal_strlit("always-on");
    }
    open(b, "timer");
    text(b, "compatible", "arm,armv8-timer");
    let cells: [u32; 12] = [GIC_PPI, PPI_SEC_PTIMER - 16, IRQ_LEVEL_HIGH, GIC_PPI, PPI_PTIMER - 16, IRQ_LEVEL_HIGH, GIC_PPI, PPI_VTIMER - 16, IRQ_LEVEL_HIGH, GIC_PPI, PPI_HYP_TIMER - 16, IRQ_LEVEL_HIGH];
    assert(cells@ =~= seq![GIC_PPI, (PPI_SEC_PTIMER - 16) as u32, IRQ_LEVEL_HIGH, GIC_PPI, (PPI_PTIMER - 16) as u32, IRQ_LEVEL_HIGH, GIC_PPI, (PPI_VTIMER - 16) as u32, IRQ_LEVEL_HIGH, GIC_PPI, (PPI_HYP_TIMER - 16) as u32, IRQ_LEVEL_HIGH]);
    words(b, "interrupts", &cells);
    empty(b, "always-on");
    close(b);
}


/// The interrupt controller.
pub open spec fn intc_node(t: Fdt) -> Fdt {
    let t = t.begun(at_address("intc@"@, GICD_BASE));
    let t = t.prop_str("compatible"@, "arm,gic-v3"@);
    let t = t.prop_u32("#interrupt-cells"@, 3);
    let t = t.prop_empty("interrupt-controller"@);
    let t = t.prop_u64s("reg"@, seq![GICD_BASE, GICD_SIZE, GICR_BASE, GICR_SIZE_PER_CPU]);
    let t = t.prop_u32("#redistributor-regions"@, 1);
    let t = t.prop_u32("#address-cells"@, 2);
    let t = t.prop_u32("#size-cells"@, 2);
    let t = t.prop_empty("ranges"@);
    let t = t.prop_u32("phandle"@, PHANDLE_GIC);
    t.ended()
}

fn put_intc_node(b: &mut FdtBuilder)
    requires
        old(b)@.depth == 1,
    ensures
        final(b)@ == intc_node(old(b)@),
        calm(old(b)@, final(b)@, 0),
{
    proof {
        reveal_strlit("intc@");
        reveal_strlit("compatible");
        reveal_strlit("arm,gic-v3");
        reveal_strlit("#interrupt-cells");
        reveal_strlit("interrupt-controller");
        reveal_strlit("reg");
        reveal_strlit("#redistributor-regions");
        reveal_strlit("#address-cells");
        reveal_strlit("#size-cells");
        reveal_strlit("ranges");
        reveal_strlit("phandle");
    }
    let name: String = address_name("intc@", GICD_BASE);
    open(b, name.as_str());
    text(b, "compatible", "arm,gic-v3");
    word(b, "#interrupt-cells", 3);
    empty(b, "interrupt-controller");
    let cells: [u64; 4] = [GICD_BASE, GICD_SIZE, GICR_BASE, GICR_SIZE_PER_CPU];
    assert(cells@ =~= seq![GICD_BASE, GICD_SIZE, GICR_BASE, GICR_SIZE_PER_CPU]);
    longs(b, "reg", &cells);
    word(b, "#redistributor-regions", 1);
    word(b, "#address-cells", 2);
    word(b, "#size-cells", 2);
    empty(b, "ranges");
    word(b, "phandle", PHANDLE_GIC);
    close(b);
}


/// The fixed clock of the peripherals.
pub open spec fn clock_node(t: Fdt, cfg: DtbParams) -> Fdt {
    let t = t.begun("apb-pclk"@);
    let t = t.prop_str("compatible"@, "fixed-clock"@);
    let t = t.prop_u32("#clock-cells"@, 0);
    let t = t.prop_u32("clock-frequency"@, cfg.uart_clock_hz);
    let t = t.prop_str("clock-output-names"@, "clk24mhz"@);
    let t = t.prop_u32("phandle"@, PHANDLE_CLK);
    t.ended()
}

fn put_clock_node(b: &mut FdtBuilder, cfg: &VirtDtbConfig)
    requires
        old(b)@.depth == 1,
    ensures
        final(b)@ == clock_node(old(b)@, cfg@),
        calm(old(b)@, final(b)@, 0),
{
    proof {
        reveal_strlit("apb-pclk");
        reveal_strlit("compatible");
        reveal_strlit("fixed-clock");
        reveal_strlit("#clock-cells");
        reveal_strlit("clock-frequency");
        reveal_strlit("clock-output-names");
        reveal_strlit("clk24mhz");
        reveal_strlit("phandle");
    }
    open(b, "apb-pclk");
    text(b, "compatible", "fixed-clock");
    word(b, "#clock-cells", 0);
    word(b, "clock-frequency", cfg.uart_clock_hz);
    text(b, "clock-output-names", "clk24mhz");
    word(b, "phandle", PHANDLE_CLK);
    close(b);
}


/// The UART.
pub open spec fn uart_node(t: Fdt) -> Fdt {
    let t = t.begun(UART_NODE@);
    let t = t.prop_strs("compatible"@, seq!["arm,pl011"@, "arm,primecell"@]);
    let t = reg_prop(t, UART_BASE, UART_SIZE);
    let t = t.prop_u32s("interrupts"@, seq![GIC_SPI, UART_SPI, IRQ_LEVEL_HIGH]);
    let t = t.prop_u32s("clocks"@, seq![PHANDLE_CLK, PHANDLE_CLK]);
    let t = t.prop_strs("clock-names"@, seq!["uartclk"@, "apb_pclk"@]);
    t.ended()
}

fn put_uart_node(b: &mut FdtBuilder)
    requires
        old(b)@.depth == 1,
    ensures
        final(b)@ == uart_node(old(b)@),
        calm(old(b)@, final(b)@, 0),
{
    proof {
        reveal_strlit("pl011@9000000");
        reveal_strlit("compatible");
        reveal_strlit("arm,pl011");
        reveal_strlit("arm,primecell");
        reveal_strlit("interrupts");
        reveal_strlit("clocks");
        reveal_strlit("clock-names");
        reveal_strlit("uartclk");
        reveal_strlit("apb_pclk");
    }
    open(b, UART_NODE);
    two_texts(b, "compatible", "arm,pl011", "arm,primecell");
    reg(b, UART_BASE, UART_SIZE);
    let cells: [u32; 3] = [GIC_SPI, UART_SPI, IRQ_LEVEL_HIGH];
    assert(cells@ =~= seq![GIC_SPI, UART_SPI, IRQ_LEVEL_HIGH]);
    words(b, "interrupts", &cells);
    let cells1: [u32; 2] = [PHANDLE_CLK, PHANDLE_CLK];
    assert(cells1@ =~= seq![PHANDLE_CLK, PHANDLE_CLK]);
    words(b, "clocks", &cells1);
    two_texts(b, "clock-names", "uartclk", "apb_pclk");
    close(b);
}


/// The RTC.
pub open spec fn rtc_node(t: Fdt) -> Fdt {
    let t = t.begun(at_address("pl031@"@, RTC_BASE));
    let t = t.prop_strs("compatible"@, seq!["arm,pl031"@, "arm,primecell"@]);
    let t = reg_prop(t, RTC_BASE, RTC_SIZE);
    let t = t.prop_u32s("interrupts"@, seq![GIC_SPI, RTC_SPI, IRQ_LEVEL_HIGH]);
    let t = t.prop_u32("clocks"@, PHANDLE_CLK);
    let t = t.prop_str("clock-names"@, "apb_pclk"@);
    t.ended()
}

fn put_rtc_node(b: &mut FdtBuilder)
    requires
        old(b)@.depth == 1,
    ensures
        final(b)@ == rtc_node(old(b)@),
        calm(old(b)@, final(b)@, 0),
{
    proof {
        reveal_strlit("pl031@");
        reveal_strlit("compatible");
        reveal_strlit("arm,pl031");
        reveal_strlit("arm,primecell");
        reveal_strlit("interrupts");
        reveal_strlit("clocks");
        reveal_strlit("clock-names");
        reveal_strlit("apb_pclk");
    }
    let name: String = address_name("pl031@", RTC_BASE);
    open(b, name.as_str());
    two_texts(b, "compatible", "arm,pl031", "arm,primecell");
    reg(b, RTC_BASE, RTC_SIZE);
    let cells: [u32; 3] = [GIC_SPI, RTC_SPI, IRQ_LEVEL_HIGH];
    assert(cells@ =~= seq![GIC_SPI, RTC_SPI, IRQ_LEVEL_HIGH]);
    words(b, "interrupts", &cells);
    word(b, "clocks", PHANDLE_CLK);
    text(b, "clock-names", "apb_pclk");
    close(b);
}


/// The GPIO block.
pub open spec fn gpio_node(t: Fdt) -> Fdt {
    let t = t.begun(at_address("pl061@"@, GPIO_BASE));
    let t = t.prop_strs("compatible"@, seq!["arm,pl061"@, "arm,primecell"@]);
    let t = reg_prop(t, GPIO_BASE, GPIO_SIZE);
    let t = t.prop_u32s("interrupts"@, seq![GIC_SPI, GPIO_SPI, IRQ_LEVEL_HIGH]);
    let t = t.prop_u32("#gpio-cells"@, 2);
    let t = t.prop_empty("gpio-controller"@);
    let t = t.prop_u32("clocks"@, PHANDLE_CLK);
    let t = t.prop_str("clock-names"@, "apb_pclk"@);
    let t = t.prop_u32("phandle"@, PHANDLE_GPIO);
    t.ended()
}

fn put_gpio_node(b: &mut FdtBuilder)
    requires
        old(b)@.depth == 1,
    ensures
        final(b)@ == gpio_node(old(b)@),
        calm(old(b)@, final(b)@, 0),
{
    proof {
        reveal_strlit("pl061@");
        reveal_strlit("compatible");
        reveal_strlit("arm,pl061");
        reveal_strlit("arm,primecell");
        reveal_strlit("interrupts");
        reveal_strlit("#gpio-cells");
        reveal_strlit("gpio-controller");
        reveal_strlit("clocks");
        reveal_strlit("clock-names");
        reveal_strlit("apb_pclk");
        reveal_strlit("phandle");
    }
    let name: String = address_name("pl061@", GPIO_BASE);
    open(b, name.as_str());
    two_texts(b, "compatible", "arm,pl061", "arm,primecell");
    reg(b, GPIO_BASE, GPIO_SIZE);
    let cells: [u32; 3] = [GIC_SPI, GPIO_SPI, IRQ_LEVEL_HIGH];
    assert(cells@ =~= seq![GIC_SPI, GPIO_SPI, IRQ_LEVEL_HIGH]);
    words(b, "interrupts", &cells);
    word(b, "#gpio-cells", 2);
    empty(b, "gpio-controller");
    word(b, "clocks", PHANDLE_CLK);
    text(b, "clock-names", "apb_pclk");
    word(b, "phandle", PHANDLE_GPIO);
    close(b);
}


/// The power key, behind the GPIO block.
pub open spec fn keys_node(t: Fdt) -> Fdt {
    let t = t.begun("gpio-keys"@);
    let t = t.prop_str("compatible"@, "gpio-keys"@);
    let t = t.begun("poweroff"@);
    let t = t.prop_str("label"@, "GPIO Key Poweroff"@);
    let t = t.prop_u32("linux,code"@, KEY_POWER);
    let t = t.prop_u32s("gpios"@, seq![PHANDLE_GPIO, POWER_KEY_LINE, 0]);
    let t = t.ended();
    t.ended()
}

fn put_keys_node(b: &mut FdtBuilder)
    requires
        old(b)@.depth == 1,
    ensures
        final(b)@ == keys_node(old(b)@),
        calm(old(b)@, final(b)@, 0),
{
    proof {
        reveal_strlit("gpio-keys");
        reveal_strlit("compatible");
        reveal_strlit("poweroff");
        reveal_strlit("label");
        reveal_strlit("GPIO Key Poweroff");
        reveal_strlit("linux,code");
        reveal_strlit("gpios");
    }
    open(b, "gpio-keys");
    text(b, "compatible", "gpio-keys");
    open(b, "poweroff");
    text(b, "label", "GPIO Key Poweroff");
    word(b, "linux,code", KEY_POWER);
    let cells: [u32; 3] = [PHANDLE_GPIO, POWER_KEY_LINE, 0];
    assert(cells@ =~= seq![PHANDLE_GPIO, POWER_KEY_LINE, 0]);
    words(b, "gpios", &cells);
    close(b);
    close(b);
}


/// The virtio-mmio slot `k`.
pub open spec fn virtio_node(t: Fdt, k: u32) -> Fdt {
    let t = t.begun(at_address("virtio_mmio@"@, slot_base(k)));
    let t = t.prop_str("compatible"@, "virtio,mmio"@);
    let t = reg_prop(t, slot_base(k), VIRTIO_SLOT_SIZE);
    let t = t.prop_u32s("interrupts"@, seq![GIC_SPI, (VIRTIO_SPI_BASE + k) as u32, IRQ_EDGE_RISING]);
    let t = t.prop_empty("dma-coherent"@);
    t.ended()
}

fn put_virtio_node(b: &mut FdtBuilder, k: u32)
    requires
        k < VIRTIO_SLOTS,
        old(b)@.depth == 1,
    ensures
        final(b)@ == virtio_node(old(b)@, k),
        calm(old(b)@, final(b)@, 0),
{
    proof {
        reveal_strlit("virtio_mmio@");
        reveal_strlit("compatible");
        reveal_strlit("virtio,mmio");
        reveal_strlit("interrupts");
        reveal_strlit("dma-coherent");
    }
    let base: u64 = VIRTIO_BASE + k as u64 * VIRTIO_SLOT_SIZE;
    let name: String = address_name("virtio_mmio@", base);
    open(b, name.as_str());
    text(b, "compatible", "virtio,mmio");
    reg(b, base, VIRTIO_SLOT_SIZE);
    let cells: [u32; 3] = [GIC_SPI, VIRTIO_SPI_BASE + k, IRQ_EDGE_RISING];
    assert(cells@ =~= seq![GIC_SPI, (VIRTIO_SPI_BASE + k) as u32, IRQ_EDGE_RISING]);
    words(b, "interrupts", &cells);
    empty(b, "dma-coherent");
    close(b);
}


/// The first `n` virtio-mmio slots.
pub open spec fn virtio_nodes(t: Fdt, n: nat) -> Fdt
    decreases n,
{
    if n == 0 {
        t
    } else {
        virtio_node(virtio_nodes(t, (n - 1) as nat), (n - 1) as u32)
    }
}

fn put_virtio_nodes(b: &mut FdtBuilder)
    requires
        old(b)@.depth == 1,
    ensures
        final(b)@ == virtio_nodes(old(b)@, VIRTIO_SLOTS as nat),
        calm(old(b)@, final(b)@, 0),
{
    let ghost start = b@;
    let mut k: u32 = 0;
    while (k as u64) < VIRTIO_SLOTS
        invariant
            k <= VIRTIO_SLOTS,
            start.depth == 1,
            b@ == virtio_nodes(start, k as nat),
            calm(start, b@, 0),
        decreases VIRTIO_SLOTS - k,
    {
        put_virtio_node(b, k);
        k += 1;
    }
}

/// The properties of the root.
pub open spec fn root_props(t: Fdt) -> Fdt {
    let t = t.begun(Seq::empty());
    let t = t.prop_str("compatible"@, "linux,dummy-virt"@);
    let t = t.prop_u32("#address-cells"@, 2);
    let t = t.prop_u32("#size-cells"@, 2);
    t.prop_u32("interrupt-parent"@, PHANDLE_GIC)
}

fn put_root_props(b: &mut FdtBuilder)
    requires
        old(b)@ == Fdt::blank(),
    ensures
        final(b)@ == root_props(Fdt::blank()),
        final(b)@.sound(1),
{
    proof {
        reveal_strlit("");
        reveal_strlit("compatible");
        reveal_strlit("linux,dummy-virt");
        reveal_strlit("#address-cells");
        reveal_strlit("#size-cells");
        reveal_strlit("interrupt-parent");
        assert(""@ =~= Seq::<char>::empty());
        reveal(Fdt::begun);
    }
    b.begin_node("");
    text(b, "compatible", "linux,dummy-virt");
    word(b, "#address-cells", 2);
    word(b, "#size-cells", 2);
    word(b, "interrupt-parent", PHANDLE_GIC);
}

/// The whole tree, from the root to its end.
pub open spec fn virt_tree(cfg: DtbParams) -> Fdt {
    let t = root_props(Fdt::blank());
    let t = chosen_node(t, cfg);
    let t = memory_node(t, cfg);
    let t = cpus_node(t);
    let t = psci_node(t, cfg);
    let t = timer_node(t);
    let t = intc_node(t);
    let t = clock_node(t, cfg);
    let t = uart_node(t);
    let t = rtc_node(t);
    let t = gpio_node(t);
    let t = keys_node(t);
    let t = virtio_nodes(t, VIRTIO_SLOTS as nat);
    t.ended()
}

/// A blob with free space up to `pad_to`, which its `totalsize` then counts.
pub open spec fn extended(blob: Seq<u8>, pad_to: usize) -> Seq<u8> {
    if blob.len() < pad_to {
        patched(blob + zeros((pad_to - blob.len()) as nat), 4, be32_bytes(pad_to as u32))
    } else {
        blob
    }
}

fn extend(dtb: &mut Vec<u8>, pad_to: usize)
    requires
        old(dtb)@.len() >= 8,
    ensures
        final(dtb)@ == extended(old(dtb)@, pad_to),
{
    if dtb.len() < pad_to {
        let more: usize = pad_to - dtb.len();
        push_zeros(dtb, more);
        let mut total: Vec<u8> = Vec::new();
        push_be32(&mut total, pad_to as u32);
        assert(total@ =~= be32_bytes(pad_to as u32));
        copy_into(dtb, 4, total.as_slice());
    }
}

/// DTB of the virt platform: the same shape as that of QEMU virt, with the
/// devices of this board only. The two texts of the configuration have no NUL.
pub fn virt_dtb(cfg: &VirtDtbConfig) -> (r: Vec<u8>)
    requires
        !cfg@.bootargs.contains('\0'),
        !cfg@.psci_method.contains('\0'),
    ensures
        virt_tree(cfg@).finished() is Ok,
        r@ == extended(virt_tree(cfg@).blob(), cfg@.pad_to),
{
    let mut b: FdtBuilder = FdtBuilder::new();
    put_root_props(&mut b);
    put_chosen_node(&mut b, cfg);
    put_memory_node(&mut b, cfg);
    put_cpus_node(&mut b);
    put_psci_node(&mut b, cfg);
    put_timer_node(&mut b);
    put_intc_node(&mut b);
    put_clock_node(&mut b, cfg);
    put_uart_node(&mut b);
    put_rtc_node(&mut b);
    put_gpio_node(&mut b);
    put_keys_node(&mut b);
    put_virtio_nodes(&mut b);
    close(&mut b);
    assert(b@ == virt_tree(cfg@));
    match b.finish() {
        Ok(dtb) => {
            let mut out: Vec<u8> = dtb;
            extend(&mut out, cfg.pad_to);
            out
        },
        Err(_) => Vec::new(),
    }
}

} // verus!
