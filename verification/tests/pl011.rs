use vetro::platform::bus::MmioDevice;
use vetro::platform::pl011::{CR, CR_LBE, CR_RXE, CR_TXE, CR_UARTEN, DR, FBRD, FIFO_DEPTH, FR, FR_RXFE, FR_RXFF, FR_TXFE, IBRD, ICR, IFLS, IMSC, INT_MASK, INT_RT, INT_RX, INT_TX, LCR_H, LCR_H_FEN, MIS, PERIPH_ID0, Pl011, RIS};


fn enabled() -> Pl011 {
    let mut u = Pl011::new();
    u.write(CR, 4, u64::from(CR_UARTEN | CR_TXE | CR_RXE));
    u.write(LCR_H, 4, u64::from(LCR_H_FEN | 0x60));
    u
}

#[test]
fn registri_di_identificazione() {
    let mut u = Pl011::new();
    let id: Vec<u64> = (0..8).map(|i| u.read(PERIPH_ID0 + 4 * i, 4)).collect();
    assert_eq!(id, [0x11, 0x10, 0x14, 0x00, 0x0D, 0xF0, 0x05, 0xB1]);
}

#[test]
fn valori_di_reset() {
    let mut u = Pl011::new();
    assert_eq!(u.read(FR, 4), u64::from(FR_RXFE | FR_TXFE));
    assert_eq!(u.read(CR, 4), 0x300);
    assert_eq!(u.read(IFLS, 4), 0x12);
    assert_eq!(u.read(RIS, 4), 0);
    assert!(!u.irq_level());
}

#[test]
fn trasmissione_verso_l_host_anche_a_uart_spenta() {
    let mut u = Pl011::new();
    for &b in b"ciao" {
        u.write(DR, 1, u64::from(b));
    }
    assert_eq!(u.output(), b"ciao");
    assert_eq!(u.take_output(), b"ciao");
    assert!(u.output().is_empty());
    assert_eq!(u.read(RIS, 4) as u32 & INT_TX, INT_TX);
}

#[test]
fn ricezione_con_interrupt_rx() {
    let mut u = enabled();
    u.write(IMSC, 4, u64::from(INT_RX | INT_RT));
    u.push_input(b"ab");
    assert_eq!(u.read(FR, 4) as u32 & FR_RXFE, 0);
    assert_eq!(u.read(MIS, 4) as u32, INT_RX);
    assert!(u.irq_level());
    assert_eq!(u.read(DR, 4), u64::from(b'a'));
    assert!(u.irq_level());
    assert_eq!(u.read(DR, 1), u64::from(b'b'));
    assert!(!u.irq_level(), "la FIFO vuota abbassa RX");
    assert_ne!(u.read(FR, 4) as u32 & FR_RXFE, 0);
}

#[test]
fn input_trattenuto_finche_la_ricezione_e_spenta() {
    let mut u = Pl011::new();
    u.push_input(b"x");
    assert_ne!(u.read(FR, 4) as u32 & FR_RXFE, 0);
    assert_eq!(u.pending_input(), 1);
    u.write(CR, 4, u64::from(CR_UARTEN | CR_RXE));
    assert_eq!(u.read(DR, 4), u64::from(b'x'));
    assert_eq!(u.pending_input(), 0);
}

#[test]
fn fifo_da_uno_senza_fen_e_da_sedici_con_fen() {
    let mut u = Pl011::new();
    u.write(CR, 4, u64::from(CR_UARTEN | CR_RXE));
    u.push_input(&[1, 2, 3]);
    assert_ne!(u.read(FR, 4) as u32 & FR_RXFF, 0, "senza FEN la FIFO ha un posto");
    assert_eq!(u.read(DR, 4), 1);
    assert_eq!(u.read(DR, 4), 2);
    u.write(LCR_H, 4, u64::from(LCR_H_FEN));
    u.push_input(&[0u8; 20]);
    // 3 era nella FIFO: cambiare FEN lo scarta (come QEMU).
    assert_eq!(u.rx_fifo.len(), FIFO_DEPTH);
    assert_eq!(u.pending_input(), 20);
    assert_ne!(u.read(FR, 4) as u32 & FR_RXFF, 0);
}

#[test]
fn icr_e_maschere() {
    let mut u = Pl011::new();
    u.write(DR, 4, u64::from(b'z'));
    assert!(!u.irq_level(), "TX non abilitato in IMSC");
    u.write(IMSC, 4, 0xFFFF_FFFF);
    assert_eq!(u.read(IMSC, 4), u64::from(INT_MASK));
    assert!(u.irq_level());
    u.write(ICR, 4, u64::from(INT_TX));
    assert_eq!(u.read(RIS, 4), 0);
    assert!(!u.irq_level());
}

#[test]
fn loopback_riporta_i_byte_in_ricezione() {
    let mut u = enabled();
    u.write(CR, 4, u64::from(CR_UARTEN | CR_TXE | CR_RXE | CR_LBE));
    u.write(DR, 4, 0x55);
    assert!(u.output().is_empty());
    assert_eq!(u.read(DR, 4), 0x55);
}

#[test]
fn registri_di_configurazione() {
    let mut u = Pl011::new();
    u.write(IBRD, 4, 0x1_0013);
    u.write(FBRD, 4, 0xFF);
    u.write(LCR_H, 4, 0x70);
    assert_eq!(u.read(IBRD, 4), 0x13);
    assert_eq!(u.read(FBRD, 4), 0x3F);
    assert_eq!(u.read(LCR_H, 4), 0x70);
    // Scritture non allineate ignorate, letture a byte ammesse.
    u.write(IBRD + 1, 1, 0xAA);
    assert_eq!(u.read(IBRD, 4), 0x13);
    assert_eq!(u.read(CR + 1, 1), 0x03);
}
