use scky_fc::dshot::{make_frame, Protocol};
use scky_fc::esc::{Esc, EscConfig, EscTelemetry};
use scky_fc::esc_telem::TelemFrame;
use scky_fc::float::F32Bits;

const STOP: u16 = 0;

fn arm(e: &mut Esc) {
    e.apply_set(true, 0, 1000, false, 0, 0, 14, F32Bits(0), F32Bits(0));
}

#[test]
fn esc_defaults() {
    let c = EscConfig::default();
    assert_eq!(Esc::new().config().pole_count, c.pole_count);
    assert!(!c.master_enabled && !c.bidir);
    assert!(c.protocol == Protocol::Dshot150);
    assert_eq!((c.refresh_hz, c.pole_count, c.dir_mask, c.mode3d_mask), (1000, 14, 0, 0));
    assert_eq!(f32::from_bits(c.cur_scale.0), 490.0);
    assert_eq!(f32::from_bits(c.cur_offset.0), 0.0);
}

#[test]
fn esc_power_on_sends_stop() {
    let mut e = Esc::new();
    for t in 0..10 {
        assert_eq!(e.frames(t), [STOP; 4]);
    }
    assert!(e.active_test(0).is_none());
}

#[test]
fn esc_ramps_up_and_drops_at_once() {
    let mut e = Esc::new();
    assert!(e.begin_test(1, Some(200), 10_000, 0));
    assert!(e.config.master_enabled);
    assert_eq!(e.frames(1), [make_frame(50, false), STOP, STOP, STOP]);
    assert_eq!(e.frames(2)[0], make_frame(52, false));
    for t in 3..=99 {
        e.frames(t);
    }
    assert_eq!(e.frames(100)[0], make_frame(248, false));
    assert_eq!(e.frames(101)[0], make_frame(248, false));
    assert!(e.begin_test(1, Some(10), 10_000, 101));
    assert_eq!(e.frames(102)[0], make_frame(58, false));
    assert!(e.begin_test(1, None, 0, 102));
    assert_eq!(e.frames(103)[0], STOP);
}

#[test]
fn esc_full_ramp_takes_a_thousand_ticks() {
    let mut e = Esc::new();
    e.begin_test(2, Some(1999), 60_000, 0);
    for t in 1..1000 {
        e.frames(t);
    }
    assert_eq!(e.frames(1000)[1], make_frame(2047, false));
}

#[test]
fn esc_throttle_is_clamped() {
    let mut e = Esc::new();
    e.begin_test(1, Some(u16::MAX), 0, 0);
    assert_eq!(e.active_test(0), Some((1, 2047, 3000)));
    e.begin_test(1, Some(0), 0, 0);
    assert_eq!(e.active_test(0), Some((1, 48, 3000)));
}

#[test]
fn esc_watchdog_window() {
    let mut e = Esc::new();
    let start = u32::MAX - 100;
    e.begin_test(3, Some(0), 1000, start);
    assert_eq!(e.frames(start)[2], make_frame(48, false));
    assert_eq!(e.frames(start.wrapping_add(999))[2], make_frame(48, false));
    assert_eq!(e.frames(start.wrapping_add(1000))[2], STOP);
    assert!(e.active_test(start).is_none());
}

#[test]
fn esc_short_timeouts_mean_the_default() {
    let mut e = Esc::new();
    e.begin_test(1, Some(5), 499, 0);
    assert_eq!(e.active_test(0), Some((1, 53, 3000)));
    e.begin_test(1, Some(5), 500, 0);
    assert_eq!(e.active_test(100), Some((1, 53, 400)));
}

#[test]
fn esc_motor_numbers() {
    let mut e = Esc::new();
    assert!(e.begin_test(0, Some(5), 0, 0));
    assert_eq!(e.active_test(0).unwrap().0, 1);
    assert!(e.begin_test(4, Some(5), 0, 0));
    assert!(!e.begin_test(5, Some(5), 0, 0));
    assert!(!e.begin_test(255, None, 0, 0));
}

#[test]
fn esc_stop_never_arms() {
    let mut e = Esc::new();
    assert!(e.begin_test(1, None, 0, 0));
    assert!(!e.config.master_enabled);
}

#[test]
fn esc_motors_run_independently() {
    let mut e = Esc::new();
    e.begin_test(1, Some(2), 10_000, 0);
    e.begin_test(3, Some(4), 10_000, 0);
    for t in 1..10 {
        e.frames(t);
    }
    assert_eq!(e.frames(10), [make_frame(50, false), STOP, make_frame(52, false), STOP]);
    e.begin_test(1, None, 0, 10);
    assert_eq!(e.frames(11), [STOP, STOP, make_frame(52, false), STOP]);
}

#[test]
fn esc_direction_then_save_are_both_sent() {
    let mut e = Esc::new();
    e.queue_command(2, 21);
    e.queue_command(2, 12);
    assert!(e.config.master_enabled);
    assert_eq!(e.config.dir_mask, 0b0010);
    for t in 0..10 {
        assert_eq!(e.frames(t), [STOP, make_frame(21, true), STOP, STOP]);
    }
    for t in 10..20 {
        assert_eq!(e.frames(t), [STOP, make_frame(12, true), STOP, STOP]);
    }
    assert_eq!(e.frames(20), [STOP; 4]);
}

#[test]
fn esc_commands_wait_for_rest() {
    let mut e = Esc::new();
    e.begin_test(1, Some(100), 10_000, 0);
    e.frames(1);
    e.queue_command(1, 9);
    assert_eq!(e.frames(2)[0], STOP);
    assert_eq!(e.frames(3)[0], make_frame(9, true));
}

#[test]
fn esc_command_queue_is_bounded() {
    let mut e = Esc::new();
    for code in 1..=7 {
        e.queue_command(1, code);
    }
    let mut seen = Vec::new();
    for t in 0..70 {
        seen.push(e.frames(t)[0]);
    }
    for (k, f) in seen.iter().enumerate() {
        let expect = if k < 60 { make_frame(k as u16 / 10 + 1, true) } else { STOP };
        assert_eq!(*f, expect);
    }
}

#[test]
fn esc_commands_to_all_and_masks() {
    let mut e = Esc::new();
    e.queue_command(0, 21);
    e.queue_command(0, 10);
    assert_eq!((e.config.dir_mask, e.config.mode3d_mask), (0x0F, 0x0F));
    e.queue_command(4, 20);
    e.queue_command(1, 9);
    assert_eq!((e.config.dir_mask, e.config.mode3d_mask), (0x07, 0x0E));
    e.queue_command(0, 20);
    e.queue_command(0, 9);
    assert_eq!((e.config.dir_mask, e.config.mode3d_mask), (0, 0));
    assert_eq!(e.frames(0), [make_frame(21, true); 4]);
}

#[test]
fn esc_unknown_target_means_nothing() {
    let mut e = Esc::new();
    e.queue_command(5, 21);
    assert!(!e.config.master_enabled);
    assert_eq!(e.config.dir_mask, 0);
}

#[test]
fn esc_master_off_clears_everything() {
    let mut e = Esc::new();
    e.begin_test(1, Some(100), 10_000, 0);
    e.frames(1);
    e.queue_command(2, 5);
    e.apply_set(false, 2, 10, true, 3, 4, 1, F32Bits(1), F32Bits(2));
    assert!(e.active_test(0).is_none());
    assert_eq!(e.frames(2), [STOP; 4]);
    assert!(e.config.protocol == Protocol::Dshot600);
    assert_eq!((e.config.refresh_hz, e.config.pole_count), (50, 2));
    assert_eq!((e.config.dir_mask, e.config.mode3d_mask, e.config.bidir), (3, 4, true));
    assert_eq!((e.config.cur_scale, e.config.cur_offset), (F32Bits(1), F32Bits(2)));
    arm(&mut e);
    assert_eq!(e.frames(3), [STOP; 4]);
}

#[test]
fn esc_set_clamps_from_above() {
    let mut e = Esc::new();
    e.apply_set(true, 9, 5000, false, 0, 0, 200, F32Bits(0), F32Bits(0));
    assert_eq!((e.config.refresh_hz, e.config.pole_count), (1000, 64));
    assert!(e.config.protocol == Protocol::Dshot150);
}

#[test]
fn esc_stop_all_stops_all() {
    let mut e = Esc::new();
    e.begin_test(1, Some(100), 10_000, 0);
    e.begin_test(2, Some(100), 10_000, 0);
    e.frames(1);
    e.stop_all();
    assert_eq!(e.frames(2), [STOP; 4]);
}

#[test]
fn esc_telemetry_round_robin() {
    let mut t = EscTelemetry::new();
    for k in 0..5u16 {
        let f = TelemFrame { temp_c: k as u8, centivolt: 100 + k, centiamp: 10 * k, mah: k, erpm: 700 };
        t.ingest(f, 14);
    }
    assert_eq!(t.centivolt, [104, 101, 102, 103]);
    assert_eq!(t.temp, [4, 1, 2, 3]);
    assert_eq!(t.rpm, [100; 4]);
    assert_eq!(t.err, [0; 4]);
    assert_eq!(t.mah, 4);
    assert_eq!((t.rpm(), t.centivolt(), t.centiamp()), (t.rpm, t.centivolt, t.centiamp));
    assert_eq!((t.temp(), t.err(), t.mah()), (t.temp, t.err, t.mah));
    assert_eq!(t.total_current_centiamp(), 40 + 10 + 20 + 30);
}

#[test]
fn esc_telemetry_last_record_of_each_slot() {
    for n in 0..14usize {
        let mut t = EscTelemetry::new();
        for k in 0..n {
            let v = 10 * (k as u16 + 1);
            let f = TelemFrame { temp_c: v as u8, centivolt: v, centiamp: v, mah: v, erpm: 420 };
            t.ingest(f, 2 * (k as u8 + 1));
        }
        for i in 0..4 {
            match (0..n).rev().find(|k| k % 4 == i) {
                Some(k) => {
                    let v = 10 * (k as u16 + 1);
                    assert_eq!((t.centivolt[i], t.centiamp[i], t.temp[i]), (v, v, v as u8));
                    assert_eq!(t.rpm[i], 420 / (k as i32 + 1));
                }
                None => assert_eq!((t.rpm[i], t.centivolt[i], t.centiamp[i], t.temp[i]), (0, 0, 0, 0)),
            }
        }
        assert_eq!((t.err, t.mah), ([0; 4], 10 * n as u16));
    }
}

fn steps(pct: F32Bits, fraction: bool) -> u16 {
    let p = f32::from_bits(pct.0);
    let percent = if fraction { p * 100.0 } else { p };
    (percent / 100.0 * 1999.0) as u16
}

#[test]
fn esc_throttle_percentages() {
    for (pct, target) in [
        (10.0f32, Some(247u16)),
        (0.10, Some(247)),
        (1.0, Some(2047)),
        (50.0, Some(1047)),
        (100.0, Some(2047)),
        (250.0, Some(2047)),
        (f32::INFINITY, Some(2047)),
        (f32::NAN, Some(48)),
        (0.0, None),
        (-0.0, None),
        (-3.0, None),
    ] {
        let mut e = Esc::new();
        assert!(e.start_test(2, F32Bits(pct.to_bits()), 0, 0, &steps));
        assert_eq!(e.active_test(0).map(|t| t.1), target, "{}", pct);
        assert_eq!(e.config.master_enabled, target.is_some());
    }
    assert!(!Esc::new().start_test(9, F32Bits(10.0f32.to_bits()), 0, 0, &steps));
}
