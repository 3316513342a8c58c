use scky_fc::bench::{
    cycle_values, frame_plan, next_cycle_pos, next_plan_frame, report_due, BenchPhase, RxStats,
    CYCLE_FRAMES,
};
use scky_fc::float::F32Bits;
use scky_fc::imu::{Health, ImuOut};
use scky_fc::mavlink::Encoder;
use scky_fc::telemetry::{due, encode, Message, Schedule};
use scky_fc::usb::{Patience, Pump, PumpStep};

fn b(x: f32) -> F32Bits {
    F32Bits(x.to_bits())
}

fn imu(health: Health) -> ImuOut {
    ImuOut { gyro: [b(1.0), b(2.0), b(3.0)], accel: [b(4.0), b(5.0), b(6.0)], health }
}

#[test]
fn telemetry_rates_over_a_second() {
    let o = imu(Health::Healthy(0x47));
    for start in [0u32, 7, 12_345] {
        let (mut i0, mut i1, mut hb, mut ss, mut s0, mut s1) = (0, 0, 0, 0, 0, 0);
        for tick in start..start + 1000 {
            match due(tick, &o, &o) {
                Some(Message::HighresImu { id: 0, .. }) => i0 += 1,
                Some(Message::HighresImu { .. }) => i1 += 1,
                Some(Message::Heartbeat) => hb += 1,
                Some(Message::SysStatus { .. }) => ss += 1,
                Some(Message::ImuStatus { id: 0, .. }) => s0 += 1,
                Some(Message::ImuStatus { .. }) => s1 += 1,
                None => {}
            }
        }
        assert_eq!((i0, i1, hb, ss, s0, s1), (20, 20, 1, 1, 1, 1));
    }
}

#[test]
fn telemetry_readings_are_in_the_body_frame() {
    let o = imu(Health::Healthy(0x47));
    match due(50, &o, &o) {
        Some(Message::HighresImu { time_usec, id, accel, gyro }) => {
            assert_eq!((time_usec, id), (50_000, 0));
            assert_eq!(accel, [b(4.0), b(-5.0), b(-6.0)]);
            assert_eq!(gyro, [b(1.0), b(-2.0), b(-3.0)]);
        }
        _ => panic!("readings are due"),
    }
    match due(u32::MAX - 20, &o, &o) {
        Some(Message::HighresImu { time_usec, id, accel, .. }) => {
            assert_eq!((time_usec, id), ((u32::MAX - 20) as u64 * 1000, 1));
            assert_eq!(accel, [b(-4.0), b(5.0), b(-6.0)]);
        }
        _ => panic!("readings are due"),
    }
}

#[test]
fn telemetry_faulty_imus() {
    let (good, bad) = (imu(Health::Healthy(0x47)), imu(Health::Bad(0xFF)));
    assert!(due(0, &bad, &good).is_none());
    assert!(due(25, &good, &bad).is_none());
    assert!(matches!(due(10, &bad, &good), Some(Message::SysStatus { present: 6, healthy: 6 })));
    assert!(matches!(due(10, &bad, &bad), Some(Message::SysStatus { present: 6, healthy: 0 })));
    assert!(matches!(
        due(1015, &bad, &good),
        Some(Message::ImuStatus { time_boot_ms: 1015, id: 0, ok: false, whoami: 0xFF })
    ));
    assert!(matches!(
        due(20, &bad, &good),
        Some(Message::ImuStatus { time_boot_ms: 20, id: 1, ok: true, whoami: 0x47 })
    ));
    assert!(matches!(due(5, &bad, &bad), Some(Message::Heartbeat)));
    assert!(due(6, &good, &good).is_none());
}

#[test]
fn telemetry_encodes_like_the_encoder() {
    let to_si = |a: [F32Bits; 3], g: [F32Bits; 3]| (g, a);
    let o = imu(Health::Healthy(0x47));
    let (mut e, mut plain) = (Encoder::new(), Encoder::new());
    let m = due(50, &o, &o).unwrap();
    let f = encode(&mut e, m, &to_si);
    let expect = plain.highres_imu(
        50_000,
        0,
        [b(1.0), b(-2.0), b(-3.0)],
        [b(4.0), b(-5.0), b(-6.0)],
        None,
    );
    assert_eq!(f.as_slice(), expect.as_slice());
    let f = encode(&mut e, Message::Heartbeat, &to_si);
    assert_eq!(f.as_slice(), plain.heartbeat().as_slice());
    let f = encode(&mut e, Message::SysStatus { present: 6, healthy: 0 }, &to_si);
    assert_eq!(f.as_slice(), plain.sys_status(6, 0).as_slice());
    let m = Message::ImuStatus { time_boot_ms: 15, id: 1, ok: true, whoami: 0x47 };
    let f = encode(&mut e, m, &to_si);
    assert_eq!(f.as_slice(), plain.imu_status(15, 1, true, true, 0x47).as_slice());
}

#[test]
fn usb_sends_in_pieces() {
    let mut p = Pump::new(100, Patience::RetryOnce);
    assert!(p.step() == PumpStep::Write(0));
    p.wrote(64);
    assert!(p.step() == PumpStep::Write(64));
    p.wrote(0);
    assert!(p.step() == PumpStep::PollAndWrite(64));
    p.wrote(36);
    assert!(p.step() == PumpStep::Done(100));
}

#[test]
fn usb_drops_the_rest() {
    let mut p = Pump::new(100, Patience::RetryOnce);
    p.wrote(64);
    p.wrote(0);
    p.wrote(0);
    assert!(p.step() == PumpStep::Done(64));
    let mut p = Pump::new(100, Patience::GiveUp);
    p.wrote(10);
    p.wrote(0);
    assert!(p.step() == PumpStep::PollAndStop(10));
    assert!(Pump::new(0, Patience::GiveUp).step() == PumpStep::Done(0));
}

#[test]
fn bench_plan_phases() {
    for (frame, value, telem, phase, name) in [
        (0u32, 0u16, false, BenchPhase::Arm, "ARM"),
        (1499, 0, false, BenchPhase::Arm, "ARM"),
        (1500, 20, true, BenchPhase::Direction, "CFG dir-normal"),
        (1600, 9, true, BenchPhase::Mode3dOff, "CFG 3D-off"),
        (1700, 12, true, BenchPhase::Save, "CFG save"),
        (1800, 0, false, BenchPhase::Rearm, "REARM"),
        (3300, 48, false, BenchPhase::Ramp, "RUN ramp"),
        (3800, 167, false, BenchPhase::Ramp, "RUN ramp"),
        (4299, 286, false, BenchPhase::Ramp, "RUN ramp"),
        (4300, 287, false, BenchPhase::Hold, "RUN hold 12%"),
        (u32::MAX, 287, false, BenchPhase::Hold, "RUN hold 12%"),
    ] {
        let (v, t, p) = frame_plan(frame);
        assert!(p == phase);
        assert_eq!((v, t, p.name()), (value, telem, name));
    }
    assert_eq!((next_plan_frame(0), next_plan_frame(17), next_plan_frame(4299)), (1, 18, 4300));
    assert_eq!((next_plan_frame(4300), next_plan_frame(u32::MAX)), (4300, 4300));
}

#[test]
fn bench_plan_runs_once() {
    let mut at = 0;
    for n in 0..20_000u32 {
        let (value, telem, phase) = frame_plan(at);
        assert_eq!(at, n.min(4300));
        if n >= 4300 {
            assert_eq!((value, telem), (287, false));
            assert!(phase == BenchPhase::Hold);
        }
        at = next_plan_frame(at);
    }
}

#[test]
fn bench_cycle_repeats() {
    let mut pos = 0;
    for n in 0..3 * CYCLE_FRAMES {
        assert_eq!(pos, n % CYCLE_FRAMES);
        pos = next_cycle_pos(pos);
    }
    assert_eq!(next_cycle_pos(CYCLE_FRAMES - 1), 0);
}

#[test]
fn bench_cycle() {
    assert_eq!(cycle_values(0), ([0; 4], 0));
    assert_eq!(cycle_values(1499), ([0; 4], 0));
    assert_eq!(cycle_values(1500), ([48, 0, 0, 0], 1));
    assert_eq!(cycle_values(2000), ([174, 0, 0, 0], 1));
    assert_eq!(cycle_values(2500), ([300, 0, 0, 0], 1));
    assert_eq!(cycle_values(3500), ([0, 0, 0, 0], 1));
    assert_eq!(cycle_values(4000), ([0, 48, 0, 0], 2));
    assert_eq!(cycle_values(10_000), ([0, 0, 0, 300], 4));
    assert_eq!(cycle_values(11_499), ([0, 0, 0, 0], 4));
    for pos in 0..CYCLE_FRAMES {
        let (v, _) = cycle_values(pos);
        assert!(v.iter().filter(|&&x| x != 0).count() <= 1);
        assert!(v.iter().all(|&x| x == 0 || (48..=300).contains(&x)));
    }
}

#[test]
fn bench_reports_and_counts() {
    assert!(!report_due(249, 0) && report_due(250, 0));
    assert!(report_due(100, u32::MAX - 200));
    let mut s = RxStats::new();
    s.record(&[]);
    assert!(s == RxStats::new());
    s.record(&[7]);
    assert_eq!((s.total, s.last_len, s.last0, s.last1), (1, 1, 7, 0));
    s.record(&[8, 9, 10]);
    assert_eq!((s.total, s.last_len, s.last0, s.last1), (4, 3, 8, 9));
}

#[test]
fn telemetry_time_goes_on_without_a_host() {
    let o = imu(Health::Healthy(0x47));
    let mut s = Schedule::new();
    for _ in 0..50 {
        assert!(s.step(false, &o, &o).is_none());
    }
    match s.step(true, &o, &o) {
        Some(Message::HighresImu { time_usec, .. }) => assert_eq!(time_usec, 50_000),
        _ => panic!("readings are due"),
    }
    for _ in 51..1005 {
        s.step(true, &o, &o);
    }
    assert!(matches!(s.step(true, &o, &o), Some(Message::Heartbeat)));
}
