use scky_fc::dshot::{
    deadline_reached, idle_mask, make_frame, output_mode, push_pull, very_high_speed, waveform,
    Protocol, MOTOR_BITS,
};

#[test]
fn dshot_frames() {
    assert_eq!(make_frame(0, false), 0x0000);
    assert_eq!(make_frame(1046, false), 0x82C6);
    assert_eq!(make_frame(48, false), 0x0606);
    assert_eq!(make_frame(2047, false), 0xFFEE);
    assert_eq!(make_frame(21, true), 0x02B9);
    assert_eq!(make_frame(12, true), 0x0198);
    assert_eq!(make_frame(2048, false), make_frame(0, false));
}

fn crc_ok(f: u16) -> bool {
    let p = f >> 4;
    f & 0xF == (p ^ (p >> 4) ^ (p >> 8)) & 0xF
}

#[test]
fn dshot_frame_round_trip_and_bit_errors() {
    for v in 0..2048u16 {
        for t in [false, true] {
            let f = make_frame(v, t);
            assert!(crc_ok(f));
            assert_eq!(f >> 5, v);
            assert_eq!(f >> 4 & 1 == 1, t);
            for k in 0..16 {
                assert!(!crc_ok(f ^ (1 << k)));
            }
        }
    }
}

#[test]
fn dshot_protocols() {
    for (n, p, cycles) in [
        (0u8, Protocol::Dshot150, 426u32),
        (1, Protocol::Dshot300, 213),
        (2, Protocol::Dshot600, 106),
    ] {
        assert!(Protocol::from_u8(n) == p);
        assert_eq!(p.as_u8(), n);
        assert_eq!(p.bit_cycles(), cycles);
    }
    assert!(Protocol::from_u8(3) == Protocol::Dshot150);
    assert!(Protocol::from_u8(255) == Protocol::Dshot150);
}

#[test]
fn dshot_waveform_carries_each_frame() {
    let frames = [0x82C6u16, 0x0000, 0xFFFF, 0x0606];
    let w = waveform(&frames, Protocol::Dshot150);
    assert_eq!((w.t_low, w.t_mid, w.t_rest), (159, 159, 108));
    assert_eq!((w.set_all, w.reset_all), (0x0000_000F, 0x000F_0000));
    for k in 0..16 {
        let mut expect = 0u32;
        for i in 0..4 {
            if frames[i] >> (15 - k) & 1 == 0 {
                expect |= 1 << (MOTOR_BITS[i] as u32 + 16);
            }
        }
        assert_eq!(w.zero_resets[k], expect);
    }
}

#[test]
fn dshot_slots_follow_each_other() {
    let w = waveform(&[0, 0, 0, 0], Protocol::Dshot600);
    let s = w.slot(3, u32::MAX - 10);
    assert_eq!(s.writes, [w.set_all, w.zero_resets[3], w.reset_all]);
    assert_eq!(s.until[2], (u32::MAX - 10).wrapping_add(106));
    assert_eq!(s.until[0], (u32::MAX - 10).wrapping_add(39));
}

#[test]
fn dshot_deadlines_wrap() {
    assert!(deadline_reached(100, 100));
    assert!(deadline_reached(101, 100));
    assert!(!deadline_reached(99, 100));
    assert!(deadline_reached(5, u32::MAX - 5));
    assert!(!deadline_reached(u32::MAX - 5, 5));
}

#[test]
fn dshot_pin_registers() {
    assert_eq!(idle_mask(), 0x000F_0000);
    assert_eq!(output_mode(0xFFFF_FFFF, 2), 0xFFFF_FFDF);
    assert_eq!(output_mode(0, 2), 0x0000_0010);
    assert_eq!(very_high_speed(0, 3), 0x0000_00C0);
    assert_eq!(push_pull(0xFFFF, 1), 0xFFFD);
}
