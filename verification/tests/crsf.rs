use scky_fc::crsf::{crc8_dvb_s2, unpack_channels, CrsfParser, RcChannels};

const RC_FRAME: [u8; 26] = [
    0xC8, 0x18, 0x16, 0xAC, 0x00, 0xDF, 0xC4, 0xD1, 0x07, 0x80, 0xFF, 0xD3, 0x87, 0xBB, 0xE0, 0x03,
    0x1F, 0xF8, 0xC0, 0x07, 0x3E, 0xF0, 0x81, 0x2F, 0x00, 0x35,
];

const RC_VALUES: [u16; 16] =
    [172, 992, 1811, 1000, 0, 2047, 500, 1500, 992, 992, 992, 992, 992, 992, 992, 1];

const LINK_FRAME: [u8; 14] =
    [0xC8, 0x0C, 0x14, 0x46, 0x4B, 0x63, 0x05, 0x01, 0x02, 0x03, 0x50, 0x5A, 0x04, 0x2E];

fn feed(p: &mut CrsfParser, bytes: &[u8]) -> Vec<bool> {
    bytes.iter().map(|&b| p.push(b)).collect()
}

#[test]
fn crsf_starts_centred() {
    let d = CrsfParser::new().data();
    assert_eq!(d.ch, [992; 16]);
    assert_eq!((d.link_quality, d.rssi_dbm, d.frames), (0, 0, 0));
}

#[test]
fn crsf_channels_frame() {
    let mut p = CrsfParser::new();
    let fresh = feed(&mut p, &RC_FRAME);
    assert!(fresh[25]);
    assert!(fresh[..25].iter().all(|f| !f));
    assert_eq!(p.data().ch, RC_VALUES);
    assert_eq!(p.data().frames, 1);
}

#[test]
fn crsf_frames_after_noise_and_back_to_back() {
    let mut p = CrsfParser::new();
    feed(&mut p, &[0x00, 0x11, 0xFF, 0x59]);
    feed(&mut p, &RC_FRAME);
    feed(&mut p, &RC_FRAME);
    assert_eq!(p.data().frames, 2);
}

#[test]
fn crsf_broadcast_address() {
    let mut f = RC_FRAME;
    f[0] = 0xEE;
    let mut p = CrsfParser::new();
    assert!(feed(&mut p, &f)[25]);
}

#[test]
fn crsf_link_statistics() {
    let mut p = CrsfParser::new();
    let fresh = feed(&mut p, &LINK_FRAME);
    assert!(fresh.iter().all(|f| !f));
    assert_eq!(p.data().rssi_dbm, 70);
    assert_eq!(p.data().link_quality, 99);
    assert_eq!(p.data().ch, [992; 16]);
}

#[test]
fn crsf_altered_byte_is_ignored() {
    for i in 2..26 {
        let mut f = RC_FRAME;
        f[i] ^= 0x10;
        let mut p = CrsfParser::new();
        assert!(feed(&mut p, &f).iter().all(|x| !x), "byte {}", i);
        assert_eq!(p.data().frames, 0);
        assert!(feed(&mut p, &RC_FRAME)[25]);
    }
}

#[test]
fn crsf_bad_lengths_resync() {
    for len in [0u8, 1, 66, 255] {
        let mut p = CrsfParser::new();
        feed(&mut p, &[0xC8, len]);
        assert!(feed(&mut p, &RC_FRAME)[25]);
    }
}

#[test]
fn crsf_unknown_type_is_ignored() {
    let body = [0x29u8, 1, 2, 3];
    let crc = body.iter().fold(0, |c, &b| crc8_dvb_s2(c, b));
    let mut p = CrsfParser::new();
    feed(&mut p, &[0xC8, 5]);
    feed(&mut p, &body);
    assert!(!p.push(crc));
    assert_eq!(p.data().frames, 0);
}

#[test]
fn crsf_pulse_widths() {
    let mut d = RcChannels::default();
    d.ch[0] = 172;
    d.ch[1] = 1811;
    d.ch[2] = 0;
    d.ch[3] = 2047;
    assert_eq!(d.ch_us(0), 988);
    assert_eq!(d.ch_us(1), 2012);
    assert_eq!(d.ch_us(2), 881);
    assert_eq!(d.ch_us(3), 2159);
    assert_eq!(d.ch_us(15), 1500);
    assert_eq!(d.ch_us(16), 1500);
    assert_eq!(d.ch_us(usize::MAX), 1500);
}

#[test]
fn crsf_packing_the_channels_gives_the_bytes_back() {
    let mut p = CrsfParser::new();
    feed(&mut p, &RC_FRAME);
    let mut bytes = [0u8; 22];
    for (i, &c) in p.data().ch.iter().enumerate() {
        for k in 0..11 {
            let bit = 11 * i + k;
            bytes[bit / 8] |= ((c >> k & 1) as u8) << (bit % 8);
        }
    }
    assert_eq!(bytes, RC_FRAME[3..25]);
}

#[test]
fn crsf_unpacks_base_2048_digits() {
    let p: Vec<u8> = (0..40).map(|k| (37 * k + 11) as u8).collect();
    let mut ch = [0xFFFF; 16];
    unpack_channels(&p, &mut ch);
    let bit = |k: usize| (p[k / 8] >> (k % 8) & 1) as u16;
    for (i, &c) in ch.iter().enumerate() {
        assert_eq!(c, (0..11).map(|k| bit(11 * i + k) << k).sum::<u16>());
    }
    let mut same = [0; 16];
    unpack_channels(&p[..22], &mut same);
    assert_eq!(ch, same);
    unpack_channels(&[0xFF; 22], &mut ch);
    assert_eq!(ch, [2047; 16]);
}
