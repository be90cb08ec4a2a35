use vetro::platform::timer::{CTL_ENABLE, CTL_IMASK, CTL_ISTATUS, GenericTimer, TimerChannel};


#[test]
fn istatus_e_linea_irq() {
    let mut t = TimerChannel::default();
    t.write_cval(100);
    assert!(!t.istatus(200), "disabilitato: ISTATUS a zero");
    assert_eq!(t.read_ctl(200), 0);
    t.write_ctl(CTL_ENABLE | CTL_ISTATUS);
    assert_eq!(t.read_ctl(99), CTL_ENABLE, "ISTATUS non si scrive");
    assert_eq!(t.read_ctl(100), CTL_ENABLE | CTL_ISTATUS);
    assert!(t.irq_level(100));
    t.write_ctl(CTL_ENABLE | CTL_IMASK);
    assert!(t.istatus(150));
    assert!(!t.irq_level(150), "mascherato");
}

#[test]
fn tval_con_segno_e_troncato() {
    let mut t = TimerChannel::default();
    t.write_tval(1000, 50);
    assert_eq!(t.read_cval(), 1050);
    assert_eq!(t.read_tval(1000), 50);
    assert_eq!(t.read_tval(1060), 0xFFFF_FFF6, "-10 su 32 bit");
    t.write_tval(1000, 0xFFFF_FFFF);
    assert_eq!(t.read_cval(), 999);
    // Solo i 32 bit bassi contano.
    t.write_tval(0, 0x1_0000_0005);
    assert_eq!(t.read_cval(), 5);
}

#[test]
fn confronto_senza_segno() {
    let mut t = TimerChannel::default();
    t.write_ctl(CTL_ENABLE);
    t.write_cval(u64::MAX);
    assert!(!t.istatus(1 << 63));
    assert!(t.istatus(u64::MAX));
}

#[test]
fn canale_virtuale_usa_cntvoff() {
    let mut g = GenericTimer::default();
    assert_eq!(g.cntfrq, 62_500_000);
    g.cntvoff = 1000;
    g.set_cntv_ctl(CTL_ENABLE);
    g.set_cntv_tval(1500, 100); // CNTVCT = 500, CVAL = 600
    assert_eq!(g.cntv_cval(), 600);
    assert_eq!(g.cntv_tval(1500), 100);
    assert_eq!(g.irq_lines(1599), [(27, false), (30, false)]);
    assert_eq!(g.next_deadline(1500), Some(1600));
    assert_eq!(g.irq_lines(1600), [(27, true), (30, false)]);
    assert_eq!(g.cntv_ctl(1600), CTL_ENABLE | CTL_ISTATUS);
    assert_eq!(g.next_deadline(1600), None);
}

#[test]
fn canale_fisico_su_ppi_30() {
    let mut g = GenericTimer::new(1_000_000);
    g.set_cntp_cval(10);
    g.set_cntp_ctl(CTL_ENABLE);
    assert_eq!(g.cntp_tval(4), 6);
    assert_eq!(g.next_deadline(4), Some(10));
    assert_eq!(g.irq_lines(10), [(27, false), (30, true)]);
    g.set_cntp_tval(10, 5);
    assert_eq!(g.cntp_cval(), 15);
    assert_eq!(g.cntp_ctl(12), CTL_ENABLE);
}

#[test]
fn scadenza_minima_fra_i_canali() {
    let mut g = GenericTimer::default();
    g.set_cntp_cval(300);
    g.set_cntp_ctl(CTL_ENABLE);
    g.set_cntv_cval(200);
    g.set_cntv_ctl(CTL_ENABLE);
    assert_eq!(g.next_deadline(0), Some(200));
    g.set_cntv_ctl(CTL_ENABLE | CTL_IMASK);
    assert_eq!(g.next_deadline(0), Some(300));
}

#[test]
fn deadline_past_the_end_of_the_counter_comes_last() {
    let mut g = GenericTimer::new(1_000_000);
    g.cntvoff = 50;
    g.set_cntv_cval(u64::MAX);
    g.set_cntv_ctl(CTL_ENABLE);
    assert_eq!(g.next_deadline(100), Some(49), "after the counter wraps");
    g.set_cntp_cval(200);
    g.set_cntp_ctl(CTL_ENABLE);
    assert_eq!(g.next_deadline(100), Some(200));
    assert_eq!(g.irq_lines(199), [(27, false), (30, false)]);
    assert_eq!(g.irq_lines(200), [(27, false), (30, true)]);
    assert_eq!(g.next_deadline(u64::MAX), Some(49));
}
