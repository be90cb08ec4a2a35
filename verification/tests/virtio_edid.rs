use vetro::platform::virtio::edid::{EdidInfo, atoi, generate, size};

/// `od -An -tx1 /sys/class/drm/card0-Virtual-1/edid` nel guest sotto
/// QEMU 10.0 e 8.2 (`-device virtio-gpu-device`, 1280x800 di default).
const QEMU_1280X800: &str = "
 00 ff ff ff ff ff ff 00 49 14 34 12 00 00 00 00
 2a 18 01 04 a5 20 14 78 06 ee 91 a3 54 4c 99 26
 0f 50 54 21 08 00 e1 c0 d1 c0 d1 00 a9 40 b3 00
 95 00 81 80 81 40 ea 29 00 c0 51 20 1c 30 40 26
 44 40 45 cb 10 00 00 18 00 00 00 f7 00 0a 00 40
 82 00 28 20 00 00 00 00 00 00 00 00 00 fd 00 32
 7d 1e a0 ff 01 0a 20 20 20 20 20 20 00 00 00 fc
 00 51 45 4d 55 20 4d 6f 6e 69 74 6f 72 0a 01 3a
 02 03 0b 00 46 7d 65 60 59 1f 61 00 00 00 10 00
 00 00 00 00 00 00 00 00 00 00 00 00 00 00 00 00
 10 00 00 00 00 00 00 00 00 00 00 00 00 00 00 00
 00 00 10 00 00 00 00 00 00 00 00 00 00 00 00 00
 00 00 00 00 10 00 00 00 00 00 00 00 00 00 00 00
 00 00 00 00 00 00 10 00 00 00 00 00 00 00 00 00
 00 00 00 00 00 00 00 00 10 00 00 00 00 00 00 00
 00 00 00 00 00 00 00 00 00 00 00 00 00 00 00 2f";

fn hex(s: &str) -> Vec<u8> {
    s.split_whitespace().map(|b| u8::from_str_radix(b, 16).unwrap()).collect()
}

#[test]
fn come_qemu() {
    let e = generate(&EdidInfo::default(), 1024);
    assert_eq!(size(&e), 256);
    assert_eq!(&e[..256], &hex(QEMU_1280X800)[..]);
    assert!(e[256..].iter().all(|&b| b == 0));
}

#[test]
fn somme_di_controllo_e_estensioni() {
    for (x, y) in [(1080, 1920), (640, 480), (5120, 2880), (4096, 2160), (1920, 1080)] {
        let info = EdidInfo { prefx: x, prefy: y, ..EdidInfo::default() };
        let e = generate(&info, 1024);
        let n = size(&e);
        assert!(n == 256 || n == 384, "{x}x{y}: {n}");
        for blk in e[..n].chunks(128) {
            assert_eq!(blk.iter().fold(0u8, |a, &b| a.wrapping_add(b)), 0, "{x}x{y}");
        }
        // Il descrittore dettagliato ha 12 bit: oltre 4096 va in DisplayID.
        assert_eq!(n == 384, x >= 4096 || y >= 4096, "{x}x{y}");
    }
    assert_eq!(size(&generate(&EdidInfo::default(), 128)), 128);
}

#[test]
fn nome_seriale_e_limiti() {
    let info = EdidInfo {
        vendor: *b"VTR",
        name: "Vetro Display Panel".into(),
        serial: Some("1234abc".into()),
        maxx: 1024,
        maxy: 768,
        ..EdidInfo::default()
    };
    let e = generate(&info, 256);
    assert_eq!(u32::from_le_bytes(e[12..16].try_into().unwrap()), 1234);
    // Nome troncato a 12 caratteri, seriale nel primo descrittore CTA.
    let name = e.windows(13).any(|w| w == b"Vetro Displa\n");
    assert!(name);
    assert!(e[128..].windows(8).any(|w| w == b"1234abc\n"));
    // Con max 1024x768 restano solo i modi fino a quella risoluzione.
    assert_eq!(e[35], 0x21);
    assert_eq!(e[36], 0x08);
    assert!(e[38..54].chunks(2).all(|s| s == [1, 1]));
    assert_eq!(atoi("  -12x"), (-12i32) as u32);
}

/// Each buffer has its size, says how many blocks it has, and is zero after them.
#[test]
fn buffer_is_whole() {
    for (x, y, refresh, buffer, want) in [
        (0, 0, 0, 1024, 256),
        (1920, 1080, 0, 1024, 256),
        (4096, 16, 0, 1024, 384),
        (16, 4096, 0, 1024, 384),
        (4095, 4095, 120_000, 1024, 384),
        (16_384, 16_384, 0, 1024, 384),
        (16_384, 16_384, 0, 383, 256),
        (16_384, 16_384, 0, 255, 128),
        (0, 0, 0, 0, 128),
    ] {
        let info = EdidInfo { prefx: x, prefy: y, refresh_mhz: refresh, ..EdidInfo::default() };
        let e = generate(&info, buffer);
        assert_eq!(e.len(), buffer.max(want), "{x}x{y}");
        assert_eq!(size(&e), want, "{x}x{y}");
        for blk in e[..want].chunks(128) {
            assert_eq!(blk.iter().fold(0u8, |a, &b| a.wrapping_add(b)), 0, "{x}x{y}");
        }
        assert!(e[want..].iter().all(|&b| b == 0));
    }
}
