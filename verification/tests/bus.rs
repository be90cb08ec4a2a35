use vetro::platform::bus::{Bus, BusError, Holds, MmioDevice, sub_word};


/// Dispositivo di prova: memoria di 16 byte e registro dell'ultimo accesso.
#[derive(Default)]
struct Scratch {
    mem: [u8; 16],
    last: Option<(u64, u8)>,
}

impl MmioDevice for Scratch {
    fn read(&mut self, offset: u64, size: u8) -> u64 {
        self.last = Some((offset, size));
        let mut v = 0u64;
        for i in (0..u64::from(size)).rev() {
            v = (v << 8) | u64::from(self.mem[(offset + i) as usize]);
        }
        v
    }
    fn write(&mut self, offset: u64, size: u8, value: u64) {
        self.last = Some((offset, size));
        for i in 0..u64::from(size) {
            self.mem[(offset + i) as usize] = (value >> (8 * i)) as u8;
        }
    }
}

#[test]
fn instrada_per_intervallo_con_offset_relativo() {
    let mut bus = Bus::new();
    let a = bus.map(0x1000, 16, "a", Scratch::default()).unwrap();
    let b = bus.map(0x100, 16, "b", Scratch::default()).unwrap();
    assert!(bus.write(0x1004, 4, 0xDEAD_BEEF));
    assert_eq!(bus.read(0x1004, 4), Some(0xDEAD_BEEF));
    assert_eq!(bus.read(0x1005, 1), Some(0xBE));
    assert_eq!(bus.device::<Scratch>(a).unwrap().last, Some((5, 1)));
    assert!(bus.write(0x10F, 1, 0x7F));
    assert_eq!(bus.device::<Scratch>(b).unwrap().mem[15], 0x7F);
    assert_eq!(bus.region(b), Some(("b", 0x100, 16)));
}

#[test]
fn accessi_fuori_regione_non_arrivano() {
    let mut bus = Bus::new();
    bus.map(0x1000, 16, "a", Scratch::default()).unwrap();
    assert_eq!(bus.read(0xFFF, 1), None);
    assert_eq!(bus.read(0x1010, 1), None);
    // Accesso a cavallo della fine della regione.
    assert_eq!(bus.read(0x100C, 8), None);
    assert!(!bus.write(0x2000, 4, 1));
    assert_eq!(bus.read(u64::MAX, 8), None);
}

#[test]
fn rifiuta_sovrapposizioni_e_intervalli_vuoti() {
    let mut bus = Bus::new();
    bus.map(0x1000, 0x100, "a", Scratch::default()).unwrap();
    assert!(matches!(
        bus.map(0x10FF, 0x10, "b", Scratch::default()),
        Err(BusError::Overlap { existing: "a", .. })
    ));
    assert!(matches!(
        bus.map(0xF00, 0x101, "c", Scratch::default()),
        Err(BusError::Overlap { .. })
    ));
    assert!(matches!(
        bus.map(0x5000, 0, "d", Scratch::default()),
        Err(BusError::InvalidRange { .. })
    ));
    assert!(matches!(
        bus.map(u64::MAX, 2, "e", Scratch::default()),
        Err(BusError::InvalidRange { .. })
    ));
    // Regione adiacente: ammessa.
    assert!(bus.map(0x1100, 0x10, "f", Scratch::default()).is_ok());
}

struct Altro;

impl MmioDevice for Altro {
    fn read(&mut self, _offset: u64, _size: u8) -> u64 {
        0
    }
    fn write(&mut self, _offset: u64, _size: u8, _value: u64) {}
}

enum Qualsiasi {
    Scratch(Scratch),
    Altro(Altro),
}

impl MmioDevice for Qualsiasi {
    fn read(&mut self, offset: u64, size: u8) -> u64 {
        match self {
            Qualsiasi::Scratch(d) => d.read(offset, size),
            Qualsiasi::Altro(d) => d.read(offset, size),
        }
    }
    fn write(&mut self, offset: u64, size: u8, value: u64) {
        match self {
            Qualsiasi::Scratch(d) => d.write(offset, size, value),
            Qualsiasi::Altro(d) => d.write(offset, size, value),
        }
    }
}

impl Holds<Scratch> for Qualsiasi {
    fn get(&self) -> Option<&Scratch> {
        match self {
            Qualsiasi::Scratch(d) => Some(d),
            Qualsiasi::Altro(_) => None,
        }
    }
    fn get_mut(&mut self) -> Option<&mut Scratch> {
        match self {
            Qualsiasi::Scratch(d) => Some(d),
            Qualsiasi::Altro(_) => None,
        }
    }
}

impl Holds<Altro> for Qualsiasi {
    fn get(&self) -> Option<&Altro> {
        match self {
            Qualsiasi::Altro(d) => Some(d),
            Qualsiasi::Scratch(_) => None,
        }
    }
    fn get_mut(&mut self) -> Option<&mut Altro> {
        match self {
            Qualsiasi::Altro(d) => Some(d),
            Qualsiasi::Scratch(_) => None,
        }
    }
}

#[test]
fn downcast_col_tipo_sbagliato_fallisce() {
    let mut bus = Bus::new();
    let id = bus.map(0, 4, "altro", Qualsiasi::Altro(Altro)).unwrap();
    assert!(bus.device_mut::<Scratch>(id).is_none());
    assert!(bus.device_mut::<Altro>(id).is_some());
}

#[test]
fn sub_word_estrae_i_byte() {
    assert_eq!(sub_word(0x4433_2211, 0, 4), 0x4433_2211);
    assert_eq!(sub_word(0x4433_2211, 1, 1), 0x22);
    assert_eq!(sub_word(0x4433_2211, 2, 2), 0x4433);
}
