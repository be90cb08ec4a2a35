use vetro::platform::bus::MmioDevice;
use vetro::platform::gic::{GICD_CTLR, GICD_CTLR_ARE, GICD_CTLR_DS, GICD_CTLR_ENABLE_GRP0, GICD_CTLR_ENABLE_GRP1, GICD_ICACTIVER, GICD_ICENABLER, GICD_ICFGR, GICD_ICPENDR, GICD_IGROUPR, GICD_IIDR, GICD_IPRIORITYR, GICD_IROUTER, GICD_ISACTIVER, GICD_ISENABLER, GICD_ISPENDR, GICD_PIDR2, GICD_TYPER, GICR_ICFGR0, GICR_IGROUPR0, GICR_IPRIORITYR, GICR_ISENABLER0, GICR_ISPENDR0, GICR_PIDR2, GICR_SGI_BASE, GICR_TYPER, GICR_WAKER, Gic, ICC_CTLR_EOIMODE, INTID_SPURIOUS, NUM_INTIDS};


const UART: u32 = 33;

/// GIC inizializzato come fa Linux: gruppo 1 ovunque, distributore e
/// interfaccia CPU accesi, PMR aperto.
fn linux_like() -> Gic {
    let mut g = Gic::new();
    g.redist_write(GICR_WAKER, 4, 0);
    g.dist_write(GICD_CTLR, 4, u64::from(GICD_CTLR_ARE | GICD_CTLR_ENABLE_GRP1 | GICD_CTLR_ENABLE_GRP0));
    for n in 1..(NUM_INTIDS as u64 / 32) {
        g.dist_write(GICD_IGROUPR + 4 * n, 4, 0xFFFF_FFFF);
    }
    g.redist_write(GICR_SGI_BASE + GICR_IGROUPR0, 4, 0xFFFF_FFFF);
    g.write_pmr(0xF0);
    g.write_igrpen1(1);
    g
}

fn enable_spi(g: &mut Gic, intid: u32, prio: u8) {
    let n = u64::from(intid / 32);
    g.dist_write(GICD_ISENABLER + 4 * n, 4, 1 << (intid % 32));
    g.dist_write(GICD_IPRIORITYR + u64::from(intid), 1, u64::from(prio));
}

#[test]
fn identificazione_e_typer() {
    let mut g = Gic::new();
    assert_eq!(g.dist_read(GICD_PIDR2, 4) >> 4 & 0xF, 3, "ArchRev GICv3");
    assert_eq!(g.redist_read(GICR_PIDR2, 4) >> 4 & 0xF, 3);
    let typer = g.dist_read(GICD_TYPER, 4);
    assert_eq!(typer & 0x1F, 8);
    assert_eq!(typer >> 19 & 0x1F, 9);
    assert_eq!(g.dist_read(GICD_IIDR, 4), 0x43B);
    assert_eq!(g.redist_read(GICR_TYPER, 8), 0x10, "Last = 1, affinità 0");
    assert_eq!(g.redist_read(GICR_TYPER + 4, 4), 0);
}

#[test]
fn ctlr_con_are_e_ds_fissi() {
    let mut g = Gic::new();
    assert_eq!(g.dist_read(GICD_CTLR, 4), u64::from(GICD_CTLR_ARE | GICD_CTLR_DS));
    g.dist_write(GICD_CTLR, 4, 0);
    assert_eq!(g.dist_read(GICD_CTLR, 4) as u32 & GICD_CTLR_ARE, GICD_CTLR_ARE);
    g.dist_write(GICD_CTLR, 4, 0xFFFF_FFFF);
    assert_eq!(g.dist_read(GICD_CTLR, 4), 0x53);
}

#[test]
fn handshake_di_waker() {
    let mut g = Gic::new();
    assert_eq!(g.redist_read(GICR_WAKER, 4), 0x6);
    g.redist_write(GICR_WAKER, 4, 0);
    assert_eq!(g.redist_read(GICR_WAKER, 4), 0);
    g.redist_write(GICR_WAKER, 4, 2);
    assert_eq!(g.redist_read(GICR_WAKER, 4), 0x6);
}

#[test]
fn spi_a_livello_ciclo_completo() {
    let mut g = linux_like();
    enable_spi(&mut g, UART, 0xA0);
    assert!(!g.irq_line());
    g.set_spi_level(1, true);
    assert!(g.irq_line());
    assert_eq!(g.read_hppir1(), 33);
    assert_eq!(g.read_iar1(), 33);
    assert_eq!(g.read_rpr(), 0xA0);
    assert_eq!(g.irq_state(UART), Some((true, true, true)), "attivo e pendente: linea alta");
    assert!(!g.irq_line(), "un interrupt attivo non si ripresenta");
    assert_eq!(g.read_iar1(), u64::from(INTID_SPURIOUS));
    g.write_eoir1(33);
    assert_eq!(g.read_rpr(), 0xFF);
    assert!(g.irq_line(), "la linea è ancora alta");
    g.set_spi_level(1, false);
    assert!(!g.irq_line());
    assert_eq!(g.dist_read(GICD_ISPENDR + 4, 4), 0);
}

#[test]
fn spi_a_fronte() {
    let mut g = linux_like();
    enable_spi(&mut g, 48, 0x80);
    g.dist_write(GICD_ICFGR + 4 * 3, 4, 0b10); // INTID 48 a fronte
    assert_eq!(g.dist_read(GICD_ICFGR + 4 * 3, 4), 0b10);
    g.set_irq_level(48, true);
    g.set_irq_level(48, false);
    assert_eq!(g.read_iar1(), 48);
    g.write_eoir1(48);
    assert!(!g.irq_line(), "il fronte è stato consumato");
    g.set_irq_level(48, true);
    assert!(g.irq_line());
}

#[test]
fn ispendr_e_icpendr() {
    let mut g = linux_like();
    enable_spi(&mut g, 40, 0x10);
    g.dist_write(GICD_ISPENDR + 4, 4, 1 << 8);
    assert_eq!(g.dist_read(GICD_ISPENDR + 4, 4), 1 << 8);
    g.dist_write(GICD_ICPENDR + 4, 4, 1 << 8);
    assert!(!g.irq_line());
    g.dist_write(GICD_ISACTIVER + 4, 4, 1 << 8);
    assert_eq!(g.dist_read(GICD_ICACTIVER + 4, 4), 1 << 8);
    g.dist_write(GICD_ICACTIVER + 4, 4, 1 << 8);
    assert_eq!(g.dist_read(GICD_ISACTIVER + 4, 4), 0);
    g.dist_write(GICD_ICENABLER + 4, 4, 1 << 8);
    assert_eq!(g.dist_read(GICD_ISENABLER + 4, 4), 0);
}

#[test]
fn priorita_parita_e_pmr() {
    let mut g = linux_like();
    enable_spi(&mut g, 40, 0x80);
    enable_spi(&mut g, 41, 0x40);
    enable_spi(&mut g, 42, 0x40);
    for i in [40, 41, 42] {
        g.set_irq_level(i, true);
    }
    assert_eq!(g.read_hppir1(), 41, "priorità 0x40, a parità l'INTID più basso");
    g.write_pmr(0x40);
    assert!(!g.irq_line(), "serve priorità strettamente minore di PMR");
    assert_eq!(g.read_iar1(), u64::from(INTID_SPURIOUS));
    g.write_pmr(0x48);
    assert_eq!(g.read_pmr(), 0x48);
    assert_eq!(g.read_iar1(), 41);
}

#[test]
fn prelazione_e_eoi_annidati() {
    let mut g = linux_like();
    enable_spi(&mut g, 40, 0x80);
    enable_spi(&mut g, 41, 0x40);
    g.set_irq_level(40, true);
    assert_eq!(g.read_iar1(), 40);
    enable_spi(&mut g, 42, 0x80);
    g.set_irq_level(42, true);
    assert!(!g.irq_line(), "stessa priorità di gruppo: niente prelazione");
    g.set_irq_level(41, true);
    assert_eq!(g.read_iar1(), 41, "priorità più alta: prelaziona");
    assert_eq!(g.read_rpr(), 0x40);
    assert_eq!(g.read_ap1r0(), (1 << (0x40 >> 3)) | (1 << (0x80 >> 3)));
    g.set_irq_level(41, false);
    g.write_eoir1(41);
    assert_eq!(g.read_rpr(), 0x80);
    g.set_irq_level(40, false);
    g.write_eoir1(40);
    assert_eq!(g.read_iar1(), 42);
}

#[test]
fn eoimode_separa_la_disattivazione() {
    let mut g = linux_like();
    g.write_ctlr(ICC_CTLR_EOIMODE);
    assert_eq!(g.read_ctlr() & ICC_CTLR_EOIMODE, ICC_CTLR_EOIMODE);
    enable_spi(&mut g, 40, 0x80);
    g.set_irq_level(40, true);
    assert_eq!(g.read_iar1(), 40);
    g.write_eoir1(40);
    assert_eq!(g.read_rpr(), 0xFF);
    assert_eq!(g.irq_state(40), Some((true, true, true)), "ancora attivo fino a DIR");
    g.write_dir(40);
    assert_eq!(g.irq_state(40), Some((true, true, false)));
}

#[test]
fn ppi_del_timer_dal_redistributore() {
    let mut g = linux_like();
    g.redist_write(GICR_SGI_BASE + GICR_ISENABLER0, 4, 1 << 27);
    g.redist_write(GICR_SGI_BASE + GICR_IPRIORITYR + 27, 1, 0xA0);
    assert_eq!(g.redist_read(GICR_SGI_BASE + GICR_IPRIORITYR + 24, 4), 0xA0 << 24);
    g.set_irq_level(27, true);
    assert_eq!(g.redist_read(GICR_SGI_BASE + GICR_ISPENDR0, 4), 1 << 27);
    assert_eq!(g.read_iar1(), 27);
    g.write_eoir1(27);
    // Nel distributore gli SGI/PPI sono RAZ/WI con ARE = 1.
    assert_eq!(g.dist_read(GICD_ISENABLER, 4), 0);
    g.dist_write(GICD_ICENABLER, 4, 1 << 27);
    assert_eq!(g.redist_read(GICR_SGI_BASE + GICR_ISENABLER0, 4), 1 << 27);
}

#[test]
fn sgi_da_sgi1r() {
    let mut g = linux_like();
    g.redist_write(GICR_SGI_BASE + GICR_ISENABLER0, 4, 1 << 5);
    assert_eq!(g.redist_read(GICR_SGI_BASE + GICR_ICFGR0, 4), 0xAAAA_AAAA);
    g.redist_write(GICR_SGI_BASE + GICR_ICFGR0, 4, 0);
    assert_eq!(g.redist_read(GICR_SGI_BASE + GICR_ICFGR0, 4), 0xAAAA_AAAA, "ICFGR0 in sola lettura");
    g.write_sgi1r(5 << 24 | 1 << 40 | 1);
    assert!(!g.irq_line(), "IRM: tutte le CPU tranne questa");
    g.write_sgi1r(5 << 24 | 1 << 16 | 1);
    assert!(!g.irq_line(), "Aff1 = 1: nessuna CPU");
    g.write_sgi1r(5 << 24 | 1);
    assert_eq!(g.read_iar1(), 5);
}

#[test]
fn gruppo_0_e_distributore_spento_non_consegnano() {
    let mut g = linux_like();
    enable_spi(&mut g, 40, 0x80);
    g.set_irq_level(40, true);
    g.dist_write(GICD_IGROUPR + 4, 4, 0);
    assert!(!g.irq_line(), "gruppo 0 non supportato");
    g.dist_write(GICD_IGROUPR + 4, 4, 0xFFFF_FFFF);
    assert!(g.irq_line());
    g.dist_write(GICD_CTLR, 4, 0);
    assert!(!g.irq_line());
    g.dist_write(GICD_CTLR, 4, u64::from(GICD_CTLR_ENABLE_GRP1));
    g.write_igrpen1(0);
    assert!(!g.irq_line());
    assert_eq!(g.read_hppir1(), 40, "HPPIR ignora IGRPEN1 e PMR");
}

#[test]
fn irouter_instrada_verso_questa_cpu() {
    let mut g = linux_like();
    enable_spi(&mut g, 40, 0x80);
    g.set_irq_level(40, true);
    let r = GICD_IROUTER + 8 * 40;
    g.dist_write(r, 8, 0x0000_0001_0000_0100);
    assert_eq!(g.dist_read(r, 8), 0x0000_0001_0000_0100);
    assert_eq!(g.dist_read(r + 4, 4), 1);
    assert!(!g.irq_line(), "affinità di un'altra CPU");
    g.dist_write(r, 8, 1 << 31);
    assert!(g.irq_line(), "IRM = 1");
    g.dist_write(r, 4, 0);
    assert!(g.irq_line());
    assert_eq!(g.dist_read(GICD_IROUTER, 8), 0, "IROUTER degli SGI/PPI riservato");
}

#[test]
fn registri_icc() {
    let mut g = Gic::new();
    assert_eq!(g.read_sre(), 7);
    g.write_sre(0);
    assert_eq!(g.read_sre(), 7);
    assert_eq!(g.read_ctlr() >> 8 & 7, 4, "PRIbits = 5 bit - 1");
    g.write_bpr1(0);
    assert_eq!(g.read_bpr1(), 3);
    g.write_bpr1(5);
    assert_eq!(g.read_bpr1(), 5);
    g.write_pmr(0xFF);
    assert_eq!(g.read_pmr(), 0xF8);
    assert_eq!(g.read_rpr(), 0xFF);
    assert_eq!(g.read_igrpen1(), 0);
    g.write_ap1r0(0);
    assert_eq!(g.read_ap1r0(), 0);
    g.write_ap1r0(0x7_8000_0105);
    assert_eq!(g.read_ap1r0(), 0x8000_0105);
    g.write_ap1r0(0);
}

#[test]
fn bpr1_raggruppa_le_priorita() {
    let mut g = linux_like();
    g.write_bpr1(5); // priorità di gruppo = bit [7:5]
    enable_spi(&mut g, 40, 0x50);
    enable_spi(&mut g, 41, 0x48);
    g.set_irq_level(40, true);
    assert_eq!(g.read_iar1(), 40);
    assert_eq!(g.read_rpr(), 0x40, "RPR riporta la priorità di gruppo");
    g.set_irq_level(41, true);
    assert!(!g.irq_line(), "0x48 e 0x50 stanno nello stesso gruppo 0x40");
    g.write_bpr1(3);
    g.write_eoir1(40);
    g.set_irq_level(40, false);
    assert_eq!(g.read_iar1(), 41);
}

#[test]
fn accesso_mmio_dalla_regione_unica() {
    let mut g = Gic::new();
    let gicr = vetro::platform::map::GICR_BASE - vetro::platform::map::GICD_BASE;
    assert_eq!(MmioDevice::read(&mut g, GICD_PIDR2, 4), 0x3B);
    assert_eq!(MmioDevice::read(&mut g, gicr + GICR_PIDR2, 4), 0x3B);
    assert_eq!(MmioDevice::read(&mut g, 0x5_0000, 4), 0, "buco RAZ");
    MmioDevice::write(&mut g, gicr + GICR_WAKER, 4, 0);
    assert_eq!(MmioDevice::read(&mut g, gicr + GICR_WAKER, 4), 0);
    MmioDevice::write(&mut g, GICD_IPRIORITYR + 32, 4, 0x4433_2211);
    assert_eq!(MmioDevice::read(&mut g, GICD_IPRIORITYR + 34, 1), 0x33);
    assert_eq!(MmioDevice::read(&mut g, GICD_IPRIORITYR, 4), 0, "priorità SGI RAZ nel distributore");
}
