use scky_fc::float::F32Bits;
use scky_fc::mavlink::{
    Encoder, Frame, MAV_SYS_STATUS_SENSOR_3D_ACCEL, MAV_SYS_STATUS_SENSOR_3D_GYRO,
};

fn bits(x: f32) -> F32Bits {
    F32Bits(x.to_bits())
}

fn x25(data: &[u8]) -> u16 {
    let mut c = 0xFFFFu16;
    for &b in data {
        c ^= b as u16;
        for _ in 0..8 {
            c = if c & 1 == 1 { (c >> 1) ^ 0x8408 } else { c >> 1 };
        }
    }
    c
}

/// Sequence, message id and payload of a frame whose checks pass.
fn open(f: &Frame, extra: u8) -> (u8, u32, Vec<u8>) {
    let b = f.as_slice();
    let n = b[1] as usize;
    assert_eq!(b[0], 0xFD);
    assert_eq!(b.len(), n + 12);
    assert_eq!((b[2], b[3], b[5], b[6]), (0, 0, 1, 1));
    let mut covered = b[1..n + 10].to_vec();
    covered.push(extra);
    assert_eq!(u16::from_le_bytes([b[n + 10], b[n + 11]]), x25(&covered));
    let id = b[7] as u32 | (b[8] as u32) << 8 | (b[9] as u32) << 16;
    (b[4], id, b[10..n + 10].to_vec())
}

#[test]
fn mavlink_heartbeat_bytes() {
    let f = Encoder::new().heartbeat();
    assert_eq!(
        f.as_slice(),
        [
            0xFD, 0x09, 0x00, 0x00, 0x00, 0x01, 0x01, 0x00, 0x00, 0x00, 0x00, 0x00, 0x00, 0x00,
            0x02, 0x00, 0x00, 0x04, 0x03, 0x86, 0xCA,
        ]
    );
}

#[test]
fn mavlink_imu_status_bytes() {
    let mut e = Encoder::new();
    e.heartbeat();
    let f = e.imu_status(15, 0, true, true, 0x47);
    assert_eq!(
        f.as_slice(),
        [
            0xFD, 0x08, 0x00, 0x00, 0x01, 0x01, 0x01, 0x10, 0xA4, 0x00, 0x0F, 0x00, 0x00, 0x00,
            0x00, 0x01, 0x01, 0x47, 0x89, 0xBD,
        ]
    );
    let (_, _, p) = open(&e.imu_status(15, 1, false, false, 0xFF), 38);
    assert_eq!(p, [15, 0, 0, 0, 1, 0, 0, 0xFF]);
}

#[test]
fn mavlink_sequence_wraps() {
    let mut e = Encoder::new();
    for k in 0..600u32 {
        let (seq, id, _) = open(&e.heartbeat(), 50);
        assert_eq!((seq as u32, id), (k % 256, 0));
    }
}

#[test]
fn mavlink_sys_status() {
    let sensors = MAV_SYS_STATUS_SENSOR_3D_ACCEL | MAV_SYS_STATUS_SENSOR_3D_GYRO;
    assert_eq!(sensors, 6);
    let (_, id, p) = open(&Encoder::new().sys_status(sensors, 0), 124);
    assert_eq!(id, 1);
    let mut expect = vec![6, 0, 0, 0, 6, 0, 0, 0, 0, 0, 0, 0, 0, 0, 0xFF, 0xFF, 0xFF, 0xFF];
    expect.extend([0u8; 12]);
    expect.push(0xFF);
    assert_eq!(p, expect);
}

#[test]
fn mavlink_highres_imu() {
    let a = [bits(1.0), bits(-2.0), bits(9.8)];
    let g = [bits(0.1), bits(0.2), bits(0.3)];
    let m = [bits(0.4), bits(0.5), bits(0.6)];
    let (_, id, p) = open(&Encoder::new().highres_imu(1_000_000, 1, a, g, Some(m)), 93);
    assert_eq!((id, p.len()), (105, 63));
    assert_eq!(p[..8], 1_000_000u64.to_le_bytes());
    let floats: Vec<f32> =
        p[8..60].chunks(4).map(|c| f32::from_le_bytes([c[0], c[1], c[2], c[3]])).collect();
    assert_eq!(floats[..9], [1.0, -2.0, 9.8, 0.1, 0.2, 0.3, 0.4, 0.5, 0.6]);
    assert!(floats[9..].iter().all(|x| x.is_nan()));
    assert_eq!(p[60..], [0xFF, 0x01, 1]);
    let (_, _, p) = open(&Encoder::new().highres_imu(0, 0, a, g, None), 93);
    assert!(p[32..60].chunks(4).all(|c| c == f32::NAN.to_le_bytes()));
    assert_eq!(p[60..], [0x3F, 0x00, 0]);
}

#[test]
fn mavlink_scaled_pressure() {
    let (_, id, p) =
        open(&Encoder::new().scaled_pressure(7, bits(1013.25), bits(0.0), -250), 115);
    assert_eq!((id, p.len()), (29, 14));
    assert_eq!(p[4..8], 1013.25f32.to_le_bytes());
    assert_eq!(p[12..], (-250i16).to_le_bytes());
}

#[test]
fn mavlink_attitude_and_local_position() {
    let v = [bits(1.0), bits(2.0), bits(3.0), bits(4.0), bits(5.0), bits(6.0)];
    let mut expect = 9u32.to_le_bytes().to_vec();
    for k in 1..=6 {
        expect.extend((k as f32).to_le_bytes());
    }
    let mut e = Encoder::new();
    let (_, id, p) = open(&e.attitude(9, v[0], v[1], v[2], v[3], v[4], v[5]), 39);
    assert_eq!((id, &p), (30, &expect));
    let (_, id, p) = open(&e.local_position_ned(9, v[0], v[1], v[2], v[3], v[4], v[5]), 185);
    assert_eq!((id, &p), (32, &expect));
}

#[test]
fn mavlink_global_position() {
    let f = Encoder::new().global_position_int(1, -2, 3, -4, 5, -6, 7, -8, 65535);
    let (_, id, p) = open(&f, 104);
    assert_eq!((id, p.len()), (33, 28));
    assert_eq!(p[4..8], (-2i32).to_le_bytes());
    assert_eq!(p[20..22], (-6i16).to_le_bytes());
    assert_eq!(p[26..], [0xFF, 0xFF]);
}

#[test]
fn mavlink_gps_raw() {
    let f = Encoder::new().gps_raw_int(5, 3, 481172992, -115166664, 545400, 90, 1152, 8440, 8);
    let (_, id, p) = open(&f, 24);
    assert_eq!((id, p.len()), (24, 30));
    assert_eq!(p[8..12], 481172992i32.to_le_bytes());
    assert_eq!(p[12..16], (-115166664i32).to_le_bytes());
    assert_eq!(p[20..28], [90, 0, 0xFF, 0xFF, 0x80, 0x04, 0xF8, 0x20]);
    assert_eq!(p[28..], [3, 8]);
}

#[test]
fn mavlink_statustext_is_cut_and_padded() {
    let mut e = Encoder::new();
    let (_, id, p) = open(&e.statustext(6, "ESC: set master=1"), 83);
    assert_eq!((id, p.len(), p[0]), (253, 51, 6));
    assert_eq!(&p[1..18], b"ESC: set master=1");
    assert!(p[18..].iter().all(|&b| b == 0));
    let long = "x".repeat(49) + "yz";
    let (_, _, p) = open(&e.statustext(0, &long), 83);
    assert_eq!(p[50], b'y');
    let (_, _, p) = open(&e.statustext(0, ""), 83);
    assert_eq!(p, vec![0; 51]);
}

#[test]
fn mavlink_distance_and_flow() {
    let mut e = Encoder::new();
    let (_, id, p) = open(&e.distance_sensor(1, 20, 800, 123, 25, 2), 85);
    assert_eq!(id, 132);
    assert_eq!(p, [1, 0, 0, 0, 20, 0, 0x20, 0x03, 123, 0, 0, 2, 25, 0]);
    let (_, id, p) = open(&e.optical_flow(2, -3, 4, bits(0.5), bits(-0.5), bits(2.0), 99), 175);
    assert_eq!((id, p.len()), (100, 26));
    assert_eq!(p[16..20], 2.0f32.to_le_bytes());
    assert_eq!(p[20..], [0xFD, 0xFF, 4, 0, 0, 99]);
}

#[test]
fn mavlink_rc_channels() {
    let mut ch = [65535u16; 18];
    for i in 0..16 {
        ch[i] = 1000 + i as u16;
    }
    let (_, id, p) = open(&Encoder::new().rc_channels(3, 16, &ch, 99), 118);
    assert_eq!((id, p.len()), (65, 42));
    for i in 0..18 {
        assert_eq!(u16::from_le_bytes([p[4 + 2 * i], p[5 + 2 * i]]), ch[i]);
    }
    assert_eq!(p[40..], [16, 99]);
}

#[test]
fn mavlink_altered_byte_breaks_the_crc() {
    let f = Encoder::new().gps_raw_int(5, 3, 1, 2, 3, 4, 5, 6, 7);
    let good = f.as_slice();
    for i in 1..good.len() {
        let mut b = good.to_vec();
        b[i] ^= 0x20;
        let n = b[1] as usize;
        let ok = b.len() == n + 12 && {
            let mut covered = b[1..n + 10].to_vec();
            covered.push(24);
            u16::from_le_bytes([b[n + 10], b[n + 11]]) == x25(&covered)
        };
        assert!(!ok);
    }
}

#[test]
fn mavlink_frame_keeps_trailing_zeros() {
    let mut e = Encoder::new();
    e.heartbeat();
    let (seq, id, p) = open(&e.frame(0x12_3456, 7, &[1, 2, 0, 0]), 7);
    assert_eq!((seq, id), (1, 0x12_3456));
    assert_eq!(p, [1, 2, 0, 0]);
    let (seq, _, p) = open(&e.frame(0, 0, &[9; 255]), 0);
    assert_eq!((seq, p), (2, vec![9; 255]));
}
