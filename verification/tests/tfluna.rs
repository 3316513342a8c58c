use scky_fc::tfluna::{TfLunaData, TfLunaParser, MAX_CM, MIN_CM};

fn frame(distance: u16, amplitude: u16) -> [u8; 9] {
    let mut f = [0x59, 0x59, 0, 0, 0, 0, 0x60, 0x09, 0];
    f[2..4].copy_from_slice(&distance.to_le_bytes());
    f[4..6].copy_from_slice(&amplitude.to_le_bytes());
    f[8] = f[..8].iter().fold(0u8, |a, &b| a.wrapping_add(b));
    f
}

fn feed(p: &mut TfLunaParser, bytes: &[u8]) -> Vec<bool> {
    bytes.iter().map(|&b| p.push(b)).collect()
}

#[test]
fn tfluna_frame_decodes() {
    let mut p = TfLunaParser::new();
    let f = [0x59, 0x59, 0x7B, 0x00, 0xDC, 0x05, 0x60, 0x09, 0x77];
    assert_eq!(f, frame(123, 1500));
    let r = feed(&mut p, &f);
    assert!(r[8] && r[..8].iter().all(|x| !x));
    let d = p.data();
    assert_eq!((d.distance_cm, d.amplitude, d.valid), (123, 1500, true));
    assert_eq!((d.frames, d.rx_bytes, d.checksum_errors), (1, 9, 0));
}

#[test]
fn tfluna_validity_limits() {
    for (distance, amplitude, valid) in [
        (MIN_CM, 100, true),
        (MAX_CM, 100, true),
        (MIN_CM - 1, 100, false),
        (MAX_CM + 1, 100, false),
        (100, 99, false),
        (100, 0xFFFF, false),
        (100, 0xFFFE, true),
    ] {
        let mut p = TfLunaParser::new();
        assert!(feed(&mut p, &frame(distance, amplitude))[8]);
        assert_eq!(p.data().valid, valid, "{} {}", distance, amplitude);
    }
}

#[test]
fn tfluna_checksum_error_is_counted() {
    for i in 2..9 {
        let mut p = TfLunaParser::new();
        feed(&mut p, &frame(123, 1500));
        let mut f = frame(200, 1500);
        f[i] = f[i].wrapping_add(1);
        assert!(feed(&mut p, &f).iter().all(|x| !x));
        let d = p.data();
        assert_eq!((d.distance_cm, d.frames, d.checksum_errors, d.rx_bytes), (123, 1, 1, 18));
    }
}

#[test]
fn tfluna_noise_is_skipped() {
    let mut p = TfLunaParser::new();
    feed(&mut p, &[0x00, 0x59, 0x00, 0x12]);
    assert!(feed(&mut p, &frame(50, 500))[8]);
    assert_eq!(p.data().rx_bytes, 13);
}

#[test]
fn tfluna_default_reading() {
    let d = TfLunaData::default();
    assert_eq!((d.distance_cm, d.amplitude, d.valid, d.frames), (0, 0, false, 0));
}
