use scky_fc::mtf01::{MspParser, Mtf01Data};

const RANGE: [u8; 14] =
    [0x24, 0x58, 0x3C, 0x00, 0x01, 0x1F, 0x05, 0x00, 0xC8, 0xD2, 0x04, 0x00, 0x00, 0x03];

const NO_RETURN: [u8; 14] =
    [0x24, 0x58, 0x3C, 0x00, 0x01, 0x1F, 0x05, 0x00, 0x07, 0xFF, 0xFF, 0xFF, 0xFF, 0xB0];

const FLOW: [u8; 18] = [
    0x24, 0x58, 0x3C, 0x00, 0x02, 0x1F, 0x09, 0x00, 0x58, 0xD4, 0xFE, 0xFF, 0xFF, 0x70, 0x11, 0x01,
    0x00, 0x5C,
];

const EMPTY: [u8; 9] = [0x24, 0x58, 0x3C, 0x00, 0x34, 0x12, 0x00, 0x00, 0x2C];

fn feed(p: &mut MspParser, bytes: &[u8]) -> Vec<bool> {
    bytes.iter().map(|&b| p.push(b)).collect()
}

#[test]
fn mtf01_range() {
    let mut p = MspParser::new();
    let r = feed(&mut p, &RANGE);
    assert!(r[13] && r[..13].iter().all(|x| !x));
    let d = p.data();
    assert_eq!((d.dist_mm, d.dist_quality, d.dist_valid), (1234, 200, true));
    assert!(!d.flow_valid);
}

#[test]
fn mtf01_negative_distance_is_invalid() {
    let mut p = MspParser::new();
    assert!(feed(&mut p, &NO_RETURN)[13]);
    let d = p.data();
    assert_eq!((d.dist_mm, d.dist_quality, d.dist_valid), (-1, 7, false));
}

#[test]
fn mtf01_flow_keeps_range() {
    let mut p = MspParser::new();
    feed(&mut p, &RANGE);
    assert!(feed(&mut p, &FLOW)[17]);
    let d = p.data();
    assert_eq!((d.flow_x, d.flow_y, d.flow_quality, d.flow_valid), (-300, 70000, 88, true));
    assert_eq!((d.dist_mm, d.dist_valid), (1234, true));
}

#[test]
fn mtf01_other_function_is_not_reported() {
    let mut p = MspParser::new();
    assert!(feed(&mut p, &EMPTY).iter().all(|x| !x));
    assert!(feed(&mut p, &RANGE)[13]);
}

#[test]
fn mtf01_altered_bytes_are_ignored() {
    for i in [3usize, 4, 5, 8, 9, 10, 11, 12, 13] {
        let mut f = RANGE;
        f[i] ^= 0x41;
        let mut p = MspParser::new();
        assert!(feed(&mut p, &f).iter().all(|x| !x));
        assert!(!p.data().dist_valid);
    }
}

#[test]
fn mtf01_direction_does_not_matter() {
    let mut f = RANGE;
    f[2] = 0x3E;
    let mut p = MspParser::new();
    assert!(feed(&mut p, &f)[13]);
}

#[test]
fn mtf01_oversized_frame_is_dropped() {
    let mut p = MspParser::new();
    feed(&mut p, &[0x24, 0x58, 0x3C, 0x00, 0x01, 0x1F, 33, 0x00]);
    assert!(feed(&mut p, &RANGE)[13]);
}

#[test]
fn mtf01_bad_second_letter_resyncs() {
    let mut p = MspParser::new();
    feed(&mut p, &[0x24, 0x4D]);
    assert!(feed(&mut p, &RANGE)[13]);
}

#[test]
fn mtf01_default_reading() {
    let d = Mtf01Data::default();
    assert_eq!((d.dist_mm, d.flow_x, d.flow_y), (0, 0, 0));
    assert!(!d.dist_valid && !d.flow_valid);
}
