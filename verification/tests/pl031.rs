use vetro::platform::bus::MmioDevice;
use vetro::platform::pl031::{CR, DR, ICR, IMSC, LR, MIS, MR, PERIPH_ID0, Pl031, RIS};


#[test]
fn identificazione_e_cr() {
    let mut r = Pl031::new(0);
    let id: Vec<u64> = (0..8).map(|i| r.read(PERIPH_ID0 + 4 * i, 4)).collect();
    assert_eq!(id, [0x31, 0x10, 0x14, 0x00, 0x0D, 0xF0, 0x05, 0xB1]);
    r.write(CR, 4, 0);
    assert_eq!(r.read(CR, 4), 1);
}

#[test]
fn dr_segue_il_tempo_esterno() {
    let mut r = Pl031::new(1_700_000_000);
    assert_eq!(r.read(DR, 4), 1_700_000_000);
    r.set_time(1_700_000_042);
    assert_eq!(r.read(DR, 4), 1_700_000_042);
    // Nessun orologio interno: senza set_time il valore non cambia.
    assert_eq!(r.read(DR, 4), 1_700_000_042);
}

#[test]
fn lr_imposta_il_contatore() {
    let mut r = Pl031::new(1000);
    r.write(LR, 4, 5);
    assert_eq!(r.read(DR, 4), 5);
    assert_eq!(r.read(LR, 4), 5);
    r.set_time(1010);
    assert_eq!(r.read(DR, 4), 15);
    // Aritmetica modulare a 32 bit.
    r.write(LR, 4, 0xFFFF_FFFF);
    r.set_time(1012);
    assert_eq!(r.read(DR, 4), 1);
}

#[test]
fn allarme_su_mr_con_maschera() {
    let mut r = Pl031::new(100);
    r.write(MR, 4, 110);
    assert_eq!(r.seconds_to_alarm(), Some(10));
    r.set_time(105);
    assert_eq!(r.read(RIS, 4), 0);
    r.set_time(112);
    assert_eq!(r.read(RIS, 4), 1);
    assert_eq!(r.read(MIS, 4), 0);
    assert!(!r.irq_level());
    r.write(IMSC, 4, 0xFF);
    assert_eq!(r.read(IMSC, 4), 1);
    assert!(r.irq_level());
    assert_eq!(r.seconds_to_alarm(), None);
    r.write(ICR, 4, 1);
    assert_eq!(r.read(RIS, 4), 0);
    assert!(!r.irq_level());
}

#[test]
fn allarme_immediato_se_mr_coincide() {
    let mut r = Pl031::new(50);
    r.write(MR, 4, 50);
    assert_eq!(r.read(RIS, 4), 1);
    r.write(ICR, 4, 1);
    r.write(MR, 4, 7);
    r.write(LR, 4, 7);
    assert_eq!(r.read(RIS, 4), 1);
}

#[test]
fn tempo_all_indietro_non_attiva_l_allarme() {
    let mut r = Pl031::new(100);
    r.write(MR, 4, 90);
    r.set_time(80);
    assert_eq!(r.read(RIS, 4), 0);
    assert_eq!(r.read(DR, 4), 80);
}
