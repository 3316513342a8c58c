use scky_fc::esc_telem::{EscTelemParser, TelemFrame};

const RECORD: [u8; 10] = [0x2D, 0x06, 0x72, 0x04, 0xD2, 0x03, 0x7A, 0x00, 0xD2, 0x55];

fn feed(p: &mut EscTelemParser, bytes: &[u8]) -> Option<TelemFrame> {
    let mut last = None;
    for &b in bytes {
        last = p.push(b);
    }
    last
}

#[test]
fn telem_record_decodes() {
    let mut p = EscTelemParser::new();
    let f = feed(&mut p, &RECORD).unwrap();
    assert_eq!((f.temp_c, f.centivolt, f.centiamp, f.mah, f.erpm), (45, 1650, 1234, 890, 21000));
    assert_eq!((p.rx_bytes, p.frames, p.crc_errors), (10, 1, 0));
    assert!(feed(&mut p, &RECORD).is_some());
    assert_eq!((p.rx_bytes(), p.frames(), p.crc_errors()), (20, 2, 0));
}

#[test]
fn telem_resyncs_after_noise() {
    let mut p = EscTelemParser::new();
    feed(&mut p, &[0x11, 0x22, 0x33]);
    let f = feed(&mut p, &RECORD).unwrap();
    assert_eq!(f.centivolt, 1650);
    assert_eq!((p.rx_bytes, p.frames, p.crc_errors), (13, 1, 3));
}

#[test]
fn telem_altered_record_is_rejected() {
    for i in 0..10 {
        let mut r = RECORD;
        r[i] ^= 0x08;
        let mut p = EscTelemParser::new();
        assert!(feed(&mut p, &r).is_none());
        assert_eq!((p.frames, p.crc_errors), (0, 1));
    }
}

#[test]
fn telem_rpm() {
    let f = TelemFrame { erpm: 21000, ..TelemFrame::default() };
    assert_eq!(f.rpm(14), 3000);
    assert_eq!(f.rpm(0), 21000);
    assert_eq!(f.rpm(1), 21000);
    assert_eq!(f.rpm(255), 164);
}
