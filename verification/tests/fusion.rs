use scky_fc::compass::{MagCal, MagRotation};
use scky_fc::estimator::{combine, Combined, Estimator, Rotation};
use scky_fc::float::F32Bits;
use scky_fc::gates::{
    direction_usable, innovation_rejected, lowpass_disabled, notch_disabled, position_converged,
    AccelGate,
};
use scky_fc::imu::{Health, ImuOut};
use scky_fc::mtf01::Mtf01Data;
use scky_fc::nav::{FlowStep, Nav, NavState};

fn b(x: f32) -> F32Bits {
    F32Bits(x.to_bits())
}

fn v(x: f32, y: f32, z: f32) -> [F32Bits; 3] {
    [b(x), b(y), b(z)]
}

fn f(v: [F32Bits; 3]) -> [f32; 3] {
    [f32::from_bits(v[0].0), f32::from_bits(v[1].0), f32::from_bits(v[2].0)]
}

fn out(health: Health) -> ImuOut {
    ImuOut { gyro: v(1.0, 2.0, 3.0), accel: v(4.0, 5.0, 6.0), health }
}

#[test]
fn estimator_rotations() {
    let x = v(1.0, 2.0, 3.0);
    assert_eq!(f(Rotation::Roll180.apply(x)), [1.0, -2.0, -3.0]);
    assert_eq!(f(Rotation::Pitch180.apply(x)), [-1.0, 2.0, -3.0]);
    assert_eq!(Rotation::Roll180.apply(Rotation::Roll180.apply(x)), x);
}

#[test]
fn estimator_combines_the_healthy() {
    let (r1, r2) = (Rotation::Roll180, Rotation::Pitch180);
    let (good, bad) = (out(Health::Healthy(0x47)), out(Health::Bad(0)));
    match combine(r1, r2, &good, &good) {
        Combined::Mean(m1, m2) => {
            assert_eq!((f(m1.gyro), f(m1.accel)), ([1.0, -2.0, -3.0], [4.0, -5.0, -6.0]));
            assert_eq!((f(m2.gyro), f(m2.accel)), ([-1.0, 2.0, -3.0], [-4.0, 5.0, -6.0]));
        }
        _ => panic!("two healthy sensors"),
    }
    match combine(r1, r2, &good, &bad) {
        Combined::Single(m) => assert_eq!(f(m.gyro), [1.0, -2.0, -3.0]),
        _ => panic!("one healthy sensor"),
    }
    match combine(r1, r2, &bad, &good) {
        Combined::Single(m) => assert_eq!(f(m.accel), [-4.0, 5.0, -6.0]),
        _ => panic!("one healthy sensor"),
    }
    match combine(r1, r2, &bad, &out(Health::Unknown)) {
        Combined::Single(m) => {
            assert_eq!((f(m.gyro), f(m.accel)), ([0.0; 3], [0.0, 0.0, 1.0]));
        }
        _ => panic!("no healthy sensor"),
    }
}

#[test]
fn estimator_calibrates_the_field() {
    let double = |raw: [F32Bits; 3], _: [F32Bits; 3], _: [F32Bits; 3]| {
        let r = f(raw);
        v(2.0 * r[0], 2.0 * r[1], 2.0 * r[2])
    };
    let mut e = Estimator::new(Rotation::Roll180, Rotation::Pitch180);
    let o = out(Health::Healthy(0x47));
    assert!(e.update(&o, &o, None, &double).mag.is_none());
    e.set_mag_cal(MagCal::new(MagRotation::Yaw180, v(0.0, 0.0, 0.0), v(1.0, 1.0, 1.0)));
    e.mag_cal_mut().start_collection();
    let m = e.update(&o, &o, Some(v(1.0, 2.0, 3.0)), &double).mag.unwrap();
    assert_eq!(f(m), [-2.0, -4.0, 6.0]);
    assert_eq!(f(e.mag_cal_mut().extremes().0), [1.0, 2.0, 3.0]);
}

#[test]
fn estimator_declination() {
    let mut e = Estimator::new(Rotation::Roll180, Rotation::Pitch180);
    assert_eq!(e.declination(), None);
    e.set_declination(b(-0.0));
    assert_eq!(e.declination(), None);
    e.set_declination(b(12.5));
    assert_eq!(e.declination(), Some(b(12.5)));
}

fn sensor(dist_valid: bool, flow_valid: bool, flow_quality: u8) -> Mtf01Data {
    Mtf01Data { dist_valid, flow_valid, flow_quality, ..Mtf01Data::default() }
}

fn advance(s: NavState) -> FlowStep {
    let px = f32::from_bits(s.px.0) + 1.0;
    FlowStep { vx: s.height_m, vy: b(-1.0), px: b(px), py: b(2.0) }
}

#[test]
fn nav_uses_good_flow() {
    let mut n = Nav::new();
    n.update(&sensor(true, true, 30), b(1.5), &advance);
    n.update(&sensor(true, true, 255), b(2.5), &advance);
    let s = n.state();
    assert!(s.height_valid);
    assert_eq!((s.height_m, s.vx, s.vy, s.px, s.py), (b(2.5), b(2.5), b(-1.0), b(2.0), b(2.0)));
    assert_eq!(s.flow_quality, 255);
}

#[test]
fn nav_holds_without_flow() {
    for (s, h) in [
        (sensor(true, true, 29), 1.0),
        (sensor(true, false, 200), 1.0),
        (sensor(false, true, 200), 1.0),
        (sensor(true, true, 200), 0.04),
        (sensor(true, true, 200), 8.1),
        (sensor(true, true, 200), f32::NAN),
    ] {
        let mut n = Nav::default();
        n.update(&sensor(true, true, 200), b(1.0), &advance);
        n.update(&s, b(h), &advance);
        let t = n.state();
        assert_eq!((t.vx, t.vy, t.px, t.py), (b(0.0), b(0.0), b(1.0), b(2.0)));
        assert_eq!(t.flow_quality, s.flow_quality);
        assert_eq!(t.height_m, b(1.0));
    }
}

#[test]
fn nav_height_limits() {
    for (h, valid) in [(0.05, true), (8.0, true), (0.0499, false), (8.001, false), (-1.0, false)] {
        let mut n = Nav::new();
        n.update(&sensor(true, false, 0), b(h), &advance);
        assert_eq!(n.state().height_valid, valid, "{}", h);
    }
}

#[test]
fn gates_snap_once() {
    let mut g = AccelGate::new();
    let u = g.weigh(b(0.5));
    assert!(!u.snap && u.correct);
    let u = g.weigh(b(1.0));
    assert!(u.snap && u.correct);
    let u = g.weigh(b(1.0));
    assert!(!u.snap && u.correct);
    assert!(!g.weigh(b(1.0e-6)).correct);
    assert!(!g.weigh(b(f32::NAN)).correct);
    assert!(direction_usable(b(2.0e-6)));
}

#[test]
fn gates_filters_and_updates() {
    assert!(lowpass_disabled(b(0.0), b(500.0)));
    assert!(lowpass_disabled(b(500.0), b(500.0)));
    assert!(!lowpass_disabled(b(80.0), b(500.0)));
    assert!(notch_disabled(b(100.0), b(0.0), b(500.0)));
    assert!(notch_disabled(b(-1.0), b(5.0), b(500.0)));
    assert!(notch_disabled(b(600.0), b(5.0), b(500.0)));
    assert!(!notch_disabled(b(100.0), b(5.0), b(500.0)));
    assert!(innovation_rejected(b(0.0)) && innovation_rejected(b(-1.0)));
    assert!(!innovation_rejected(b(0.1)));
    assert!(position_converged(true, b(4.9)));
    assert!(!position_converged(true, b(5.0)));
    assert!(!position_converged(false, b(1.0)));
}

#[test]
fn estimator_ignores_the_data_of_a_faulty_imu() {
    let good = out(Health::Healthy(0x47));
    let bad = out(Health::Bad(0));
    let other = ImuOut { gyro: v(9.0, 9.0, 9.0), accel: v(8.0, 8.0, 8.0), health: Health::Bad(0) };
    let keep = |raw: [F32Bits; 3], _: [F32Bits; 3], _: [F32Bits; 3]| raw;
    for (a, b) in [(bad, other), (other, bad)] {
        let mut e = Estimator::new(Rotation::Roll180, Rotation::Pitch180);
        let mut g = Estimator::new(Rotation::Roll180, Rotation::Pitch180);
        let raw = Some(v(1.0, 2.0, 3.0));
        let (r, q) = (e.update(&good, &a, raw, &keep), g.update(&good, &b, raw, &keep));
        match (r.motion, q.motion) {
            (Combined::Single(m), Combined::Single(n)) => {
                assert_eq!((m.gyro, m.accel), (n.gyro, n.accel));
            }
            _ => panic!("one healthy sensor"),
        }
        assert_eq!(r.mag, q.mag);
    }
}
