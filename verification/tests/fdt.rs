use vetro::platform::fdt::{FDT_BEGIN_NODE, FDT_END, FDT_END_NODE, FDT_MAGIC, FDT_PROP, FdtBuilder, FdtError, PHANDLE_CLK, PHANDLE_GIC, PHANDLE_GPIO, QEMU_FDT_SIZE, VirtDtbConfig, virt_dtb};

use std::collections::BTreeMap;

fn be32(b: &[u8], off: usize) -> u32 {
    u32::from_be_bytes(b[off..off + 4].try_into().unwrap())
}

/// Parser minimo: percorso del nodo -> (nome proprietà -> valore).
fn parse(dtb: &[u8]) -> BTreeMap<String, BTreeMap<String, Vec<u8>>> {
    assert_eq!(be32(dtb, 0), FDT_MAGIC);
    let off_struct = be32(dtb, 8) as usize;
    let off_strings = be32(dtb, 12) as usize;
    let size_struct = be32(dtb, 36) as usize;
    let mut nodes = BTreeMap::new();
    let mut path: Vec<String> = Vec::new();
    let mut p = off_struct;
    loop {
        assert!(p < off_struct + size_struct, "struttura senza FDT_END");
        let tok = be32(dtb, p);
        p += 4;
        match tok {
            FDT_BEGIN_NODE => {
                let end = p + dtb[p..].iter().position(|&c| c == 0).unwrap();
                path.push(String::from_utf8(dtb[p..end].to_vec()).unwrap());
                p = (end + 1).next_multiple_of(4);
                nodes.insert(full(&path), BTreeMap::new());
            }
            FDT_END_NODE => {
                path.pop().expect("END_NODE senza nodo");
            }
            FDT_PROP => {
                let len = be32(dtb, p) as usize;
                let nameoff = be32(dtb, p + 4) as usize;
                let s = off_strings + nameoff;
                let e = s + dtb[s..].iter().position(|&c| c == 0).unwrap();
                let name = String::from_utf8(dtb[s..e].to_vec()).unwrap();
                let value = dtb[p + 8..p + 8 + len].to_vec();
                nodes.get_mut(&full(&path)).unwrap().insert(name, value);
                p = (p + 8 + len).next_multiple_of(4);
            }
            4 => {} // FDT_NOP
            FDT_END => break,
            t => panic!("token sconosciuto {t}"),
        }
    }
    assert!(path.is_empty(), "nodi non chiusi");
    assert_eq!(p, off_struct + size_struct);
    nodes
}

fn full(path: &[String]) -> String {
    if path.len() <= 1 { "/".into() } else { path[1..].iter().map(|n| format!("/{n}")).collect() }
}

fn cells(v: &[u8]) -> Vec<u32> {
    v.chunks(4).map(|c| u32::from_be_bytes(c.try_into().unwrap())).collect()
}

fn strs(v: &[u8]) -> Vec<&str> {
    v.strip_suffix(&[0]).unwrap().split(|&c| c == 0).map(|s| core::str::from_utf8(s).unwrap()).collect()
}

#[test]
fn semi_e_spazio_libero_come_qemu() {
    let cfg = VirtDtbConfig { seed: Some(7), pad_to: QEMU_FDT_SIZE, ..VirtDtbConfig::default() };
    let dtb = virt_dtb(&cfg);
    assert_eq!(dtb.len(), QEMU_FDT_SIZE);
    assert_eq!(be32(&dtb, 4) as usize, QEMU_FDT_SIZE, "totalsize con lo spazio libero");
    assert_eq!(virt_dtb(&cfg), dtb, "deterministico");
    let other = virt_dtb(&VirtDtbConfig { seed: Some(8), ..cfg.clone() });
    assert_ne!(other, dtb);
    let find = |d: &[u8], name: &[u8]| d.windows(name.len()).any(|w| w == name);
    assert!(find(&dtb, b"rng-seed\0") && find(&dtb, b"kaslr-seed\0"));
    assert!(!find(&virt_dtb(&VirtDtbConfig::default()), b"rng-seed\0"));
}

#[test]
fn header_coerente() {
    let dtb = virt_dtb(&VirtDtbConfig::default());
    assert_eq!(be32(&dtb, 0), 0xD00D_FEED);
    assert_eq!(be32(&dtb, 4) as usize, dtb.len(), "totalsize");
    let (off_struct, off_strings, off_rsv) = (be32(&dtb, 8), be32(&dtb, 12), be32(&dtb, 16));
    assert_eq!(be32(&dtb, 20), 17);
    assert_eq!(be32(&dtb, 24), 16);
    assert_eq!(be32(&dtb, 28), 0);
    let (size_strings, size_struct) = (be32(&dtb, 32), be32(&dtb, 36));
    assert_eq!(off_rsv, 40);
    assert_eq!(off_rsv % 8, 0);
    assert_eq!(off_struct % 4, 0);
    assert_eq!(off_struct, off_rsv + 16, "riserve vuote: solo il terminatore");
    assert_eq!(off_strings, off_struct + size_struct);
    assert_eq!(off_strings + size_strings, dtb.len() as u32);
    assert_eq!(be32(&dtb, off_struct as usize), FDT_BEGIN_NODE);
    assert_eq!(be32(&dtb, (off_strings - 4) as usize), FDT_END);
}

#[test]
fn proprieta_della_piattaforma() {
    let cfg = VirtDtbConfig {
        ram_size: 0x8000_0000,
        bootargs: "console=ttyAMA0 rdinit=/init".into(),
        initrd: Some((0x4800_0000, 0x4810_0000)),
        ..VirtDtbConfig::default()
    };
    let t = parse(&virt_dtb(&cfg));
    let root = &t["/"];
    assert_eq!(strs(&root["compatible"]), ["linux,dummy-virt"]);
    assert_eq!(cells(&root["#address-cells"]), [2]);
    assert_eq!(cells(&root["interrupt-parent"]), [PHANDLE_GIC]);

    let chosen = &t["/chosen"];
    assert_eq!(strs(&chosen["bootargs"]), ["console=ttyAMA0 rdinit=/init"]);
    assert_eq!(strs(&chosen["stdout-path"]), ["/pl011@9000000"]);
    assert!(t.contains_key("/pl011@9000000"), "stdout-path punta a un nodo esistente");
    assert_eq!(cells(&chosen["linux,initrd-start"]), [0, 0x4800_0000]);
    assert_eq!(cells(&chosen["linux,initrd-end"]), [0, 0x4810_0000]);

    let mem = &t["/memory@40000000"];
    assert_eq!(strs(&mem["device_type"]), ["memory"]);
    assert_eq!(cells(&mem["reg"]), [0, 0x4000_0000, 0, 0x8000_0000]);

    let cpu = &t["/cpus/cpu@0"];
    assert_eq!(strs(&cpu["enable-method"]), ["psci"]);
    assert_eq!(strs(&cpu["device_type"]), ["cpu"]);
    assert_eq!(cells(&t["/cpus"]["#size-cells"]), [0]);
    assert_eq!(strs(&t["/psci"]["method"]), ["hvc"]);
    assert_eq!(strs(&t["/psci"]["compatible"]), ["arm,psci-1.0", "arm,psci-0.2"]);

    let gic = &t["/intc@8000000"];
    assert_eq!(strs(&gic["compatible"]), ["arm,gic-v3"]);
    assert!(gic["interrupt-controller"].is_empty());
    assert_eq!(cells(&gic["reg"]), [0, 0x0800_0000, 0, 0x1_0000, 0, 0x080A_0000, 0, 0x2_0000]);
    assert_eq!(cells(&gic["phandle"]), [PHANDLE_GIC]);

    let timer = &t["/timer"];
    assert_eq!(strs(&timer["compatible"]), ["arm,armv8-timer"]);
    assert_eq!(cells(&timer["interrupts"]), [1, 13, 4, 1, 14, 4, 1, 11, 4, 1, 10, 4]);

    let clk = &t["/apb-pclk"];
    assert_eq!(cells(&clk["clock-frequency"]), [24_000_000]);
    assert_eq!(cells(&clk["phandle"]), [PHANDLE_CLK]);

    let uart = &t["/pl011@9000000"];
    assert_eq!(strs(&uart["compatible"]), ["arm,pl011", "arm,primecell"]);
    assert_eq!(cells(&uart["reg"]), [0, 0x0900_0000, 0, 0x1000]);
    assert_eq!(cells(&uart["interrupts"]), [0, 1, 4]);
    assert_eq!(cells(&uart["clocks"]), [PHANDLE_CLK, PHANDLE_CLK]);
    assert_eq!(strs(&uart["clock-names"]), ["uartclk", "apb_pclk"]);

    let rtc = &t["/pl031@9010000"];
    assert_eq!(strs(&rtc["compatible"]), ["arm,pl031", "arm,primecell"]);
    assert_eq!(cells(&rtc["interrupts"]), [0, 2, 4]);

    // GPIO e tasto di spegnimento: gli stessi valori del DTB di QEMU 10.0
    // (`-M virt,dumpdtb=`), a parte il numero del phandle.
    let gpio = &t["/pl061@9030000"];
    assert_eq!(strs(&gpio["compatible"]), ["arm,pl061", "arm,primecell"]);
    assert_eq!(cells(&gpio["reg"]), [0, 0x0903_0000, 0, 0x1000]);
    assert_eq!(cells(&gpio["interrupts"]), [0, 7, 4]);
    assert_eq!(cells(&gpio["#gpio-cells"]), [2]);
    assert!(gpio["gpio-controller"].is_empty());
    assert_eq!(cells(&gpio["clocks"]), [PHANDLE_CLK]);
    assert_eq!(strs(&gpio["clock-names"]), ["apb_pclk"]);
    assert_eq!(cells(&gpio["phandle"]), [PHANDLE_GPIO]);
    assert_eq!(strs(&t["/gpio-keys"]["compatible"]), ["gpio-keys"]);
    let key = &t["/gpio-keys/poweroff"];
    assert_eq!(cells(&key["gpios"]), [PHANDLE_GPIO, 3, 0]);
    assert_eq!(cells(&key["linux,code"]), [0x74]);
    assert_eq!(strs(&key["label"]), ["GPIO Key Poweroff"]);

    let v0 = &t["/virtio_mmio@a000000"];
    assert_eq!(cells(&v0["interrupts"]), [0, 16, 1]);
    let v31 = &t["/virtio_mmio@a003e00"];
    assert_eq!(cells(&v31["reg"]), [0, 0x0A00_3E00, 0, 0x200]);
    assert_eq!(cells(&v31["interrupts"]), [0, 47, 1]);
}

#[test]
fn stringhe_deduplicate() {
    let dtb = virt_dtb(&VirtDtbConfig::default());
    let off = be32(&dtb, 12) as usize;
    let strings = &dtb[off..];
    let n = strings.split(|&c| c == 0).filter(|s| *s == b"compatible").count();
    assert_eq!(n, 1);
}

#[test]
fn builder_con_riserve_e_tipi() {
    let mut b = FdtBuilder::new();
    b.reserve_memory(0x1000, 0x2000)
        .boot_cpuid(3)
        .begin_node("")
        .prop_u32("a", 7)
        .prop_u64("b", 0x1_0000_0002)
        .prop_str("c", "xy")
        .prop_u32_list("d", &[1, 2])
        .prop_strs("e", &["p", "q"])
        .begin_node("figlio@1")
        .prop_bytes("f", &[9, 8, 7])
        .end_node()
        .end_node();
    let dtb = b.finish().unwrap();
    assert_eq!(be32(&dtb, 28), 3);
    assert_eq!(be32(&dtb, 8), 40 + 32, "una riserva più il terminatore");
    assert_eq!(&dtb[40..56], &[0, 0, 0, 0, 0, 0, 0x10, 0, 0, 0, 0, 0, 0, 0, 0x20, 0]);
    let t = parse(&dtb);
    assert_eq!(cells(&t["/"]["a"]), [7]);
    assert_eq!(cells(&t["/"]["b"]), [1, 2]);
    assert_eq!(strs(&t["/"]["c"]), ["xy"]);
    assert_eq!(cells(&t["/"]["d"]), [1, 2]);
    assert_eq!(strs(&t["/"]["e"]), ["p", "q"]);
    assert_eq!(t["/figlio@1"]["f"], [9, 8, 7]);
}

#[test]
fn errori_del_builder() {
    let mut b = FdtBuilder::new();
    b.begin_node("");
    assert_eq!(b.finish(), Err(FdtError::UnclosedNodes(1)));
    assert_eq!(FdtBuilder::new().finish(), Err(FdtError::Empty));
    let mut b = FdtBuilder::new();
    b.end_node();
    assert_eq!(b.finish(), Err(FdtError::UnmatchedEnd));
    let mut b = FdtBuilder::new();
    b.prop_u32("x", 1);
    assert_eq!(b.finish(), Err(FdtError::PropertyOutsideNode("x".into())));
    let mut b = FdtBuilder::new();
    b.begin_node("").begin_node("").end_node().end_node();
    assert_eq!(b.finish(), Err(FdtError::InvalidName(String::new())));
    let mut b = FdtBuilder::new();
    b.begin_node("").end_node().begin_node("").end_node();
    assert_eq!(b.finish(), Err(FdtError::MultipleRoots));
    let mut b = FdtBuilder::new();
    b.begin_node("radice");
    assert!(matches!(b.finish(), Err(FdtError::InvalidName(_))));
}
