use vetro::platform::bus::MmioDevice;
use vetro::platform::pl061::{DATA, DIR, IBE, IC, IE, IEV, IS, MIS, PERIPH_ID0, POWER_KEY_LINE, Pl061, RIS};


#[test]
fn identificazione() {
    let mut g = Pl061::new();
    let id: Vec<u64> = (0..8).map(|i| g.read(PERIPH_ID0 + 4 * i, 4)).collect();
    assert_eq!(id, [0x61, 0x10, 0x04, 0x00, 0x0D, 0xF0, 0x05, 0xB1]);
    // Il driver Linux legge a byte.
    assert_eq!(g.read(PERIPH_ID0, 1), 0x61);
}

#[test]
fn data_con_maschera_nell_indirizzo() {
    let mut g = Pl061::new();
    g.write(DIR, 1, 0x0F); // linee 0..3 in uscita
    g.write(0x3FC, 1, 0xFF); // maschera piena: solo le uscite cambiano
    assert_eq!(g.read(0x3FC, 1), 0x0F);
    g.write(0x3FC, 1, 0x00);
    g.write(0x1 << 2 | 0x2 << 2, 1, 0xFF); // maschera 0b11: linee 0 e 1
    assert_eq!(g.read(0x3FC, 1), 0x03);
    assert_eq!(g.read(0x2 << 2, 1), 0x02, "lettura con maschera della sola linea 1");
    assert_eq!(g.outputs(), 0x03);
    // Un ingresso pilotato dall'host si legge; una linea in uscita no.
    g.set_input(5, true);
    g.set_input(1, false);
    assert_eq!(g.read(0x3FC, 1), 0x23);
    g.write(0x3FC, 1, 0x00);
    assert_eq!(g.read(0x3FC, 1), 0x20, "DATA non scrive gli ingressi");
}

/// Come il driver Linux con gpio-keys (IRQ_TYPE_EDGE_BOTH: IS = 0,
/// IBE = 1): pressione e rilascio del tasto di spegnimento danno un
/// interrupt ciascuno, azzerato da IC.
#[test]
fn tasto_su_entrambi_i_fronti() {
    let mut g = Pl061::new();
    let m = 1 << POWER_KEY_LINE;
    g.write(IBE, 1, m);
    g.write(IE, 1, m);
    assert!(!g.irq_level());
    g.set_input(POWER_KEY_LINE, true);
    assert!(g.irq_level());
    assert_eq!(g.read(MIS, 1), m);
    g.write(IC, 1, m);
    assert!(!g.irq_level(), "fronte: IC lo azzera anche col tasto premuto");
    g.set_input(POWER_KEY_LINE, true);
    assert!(!g.irq_level(), "nessun cambio, nessun fronte");
    g.set_input(POWER_KEY_LINE, false);
    assert!(g.irq_level(), "il rilascio è un fronte");
    g.write(IC, 1, 0xFF);
    assert_eq!(g.read(RIS, 1), 0);
}

#[test]
fn fronte_scelto_da_iev_e_maschera() {
    let mut g = Pl061::new();
    g.write(IEV, 1, 0x01); // linea 0: salita; linea 1: discesa
    g.set_input(0, true);
    g.set_input(1, true);
    assert_eq!(g.read(RIS, 1), 0x01, "RIS si accende anche senza IE");
    assert_eq!(g.read(MIS, 1), 0);
    g.set_input(1, false);
    assert_eq!(g.read(RIS, 1), 0x03);
    g.write(IE, 1, 0x02);
    assert!(g.irq_level());
}

#[test]
fn livello_si_riaccende_finche_attivo() {
    let mut g = Pl061::new();
    // Prima IEV: con IS = 1 e IEV = 0 la linea a 0 è già "attiva"
    // (livello basso) e RIS si accende subito, come in QEMU.
    g.write(IEV, 1, 0x04); // livello alto sulla linea 2
    g.write(IS, 1, 0x04);
    g.write(IE, 1, 0x04);
    assert!(!g.irq_level());
    g.set_input(2, true);
    assert!(g.irq_level());
    g.write(IC, 1, 0x04);
    assert!(g.irq_level(), "livello ancora attivo: RIS torna a 1");
    g.set_input(2, false);
    g.write(IC, 1, 0x04);
    assert!(!g.irq_level());
    // Livello basso attivo (IEV = 0) con linea a 0: subito attivo.
    g.write(IEV, 1, 0x00);
    assert!(g.irq_level());
}

#[test]
fn ingresso_ignorato_sulle_uscite() {
    let mut g = Pl061::new();
    g.write(DIR, 1, 0x08);
    g.write(IBE, 1, 0x08);
    g.write(IE, 1, 0x08);
    g.set_input(3, true);
    assert!(!g.irq_level());
    assert_eq!(g.read(0x3FC, 1), 0);
}

/// A line that changed while it was an output is seen when it becomes an input,
/// and no edge comes of it twice.
#[test]
fn every_line_is_seen_at_once() {
    let mut g = Pl061::new();
    g.write(IBE, 1, 0xFF);
    g.write(DIR, 1, 0x01);
    g.write(0x3FC, 1, 0x01);
    assert_eq!(g.read(RIS, 1), 0);
    g.write(DIR, 1, 0x00);
    assert_eq!(g.read(RIS, 1), 0x01);
    g.write(IC, 1, 0xFF);
    g.set_input(0, true);
    g.write(IE, 1, 0xFF);
    assert_eq!(g.read(RIS, 1), 0);
}
