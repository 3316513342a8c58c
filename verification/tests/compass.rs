use scky_fc::bus::BusOp;
use scky_fc::compass::{Compass, MagCal, MagKind, MagRotation, ProbeStep};
use scky_fc::float::F32Bits;

fn v(x: f32, y: f32, z: f32) -> [F32Bits; 3] {
    [F32Bits(x.to_bits()), F32Bits(y.to_bits()), F32Bits(z.to_bits())]
}

fn f(v: [F32Bits; 3]) -> [f32; 3] {
    [f32::from_bits(v[0].0), f32::from_bits(v[1].0), f32::from_bits(v[2].0)]
}

fn probe(c: &mut Compass, qmc: Option<&[u8]>, hmc: Option<&[u8]>) -> Vec<ProbeStep> {
    let mut steps = Vec::new();
    let mut reply = None;
    loop {
        let s = c.init(reply);
        steps.push(s);
        reply = match s {
            ProbeStep::Bus(BusOp::Read { addr: 0x0D, reg: 0x0D, len: 1 }) => qmc,
            ProbeStep::Bus(BusOp::Read { addr: 0x1E, reg: 0x0A, len: 3 }) => hmc,
            ProbeStep::Done(_) => return steps,
            _ => None,
        }
    }
}

fn write(addr: u8, reg: u8, value: u8) -> ProbeStep {
    ProbeStep::Bus(BusOp::Write { addr, reg, value })
}

#[test]
fn compass_finds_qmc() {
    let mut c = Compass::new();
    assert!(c.kind() == MagKind::Absent);
    let steps = probe(&mut c, Some(&[0xFF]), Some(b"H43"));
    assert!(steps[1..] == [write(0x0D, 0x0B, 0x01), write(0x0D, 0x09, 0x1D), ProbeStep::Done(MagKind::Qmc5883l)]);
    assert_eq!(c.kind().name(), "QMC5883L");
    assert!(c.read_request() == Some(BusOp::Read { addr: 0x0D, reg: 0x00, len: 6 }));
    let s = c.read(Some([0x01, 0x00, 0xFF, 0xFF, 0x34, 0x12]));
    assert_eq!((s.counts, s.lsb_per_gauss, s.healthy), ([1, -1, 0x1234], 3000, true));
    let s = c.read(None);
    assert!(s.kind == MagKind::Qmc5883l && !s.healthy && s.counts == [0; 3]);
}

#[test]
fn compass_finds_hmc() {
    for qmc in [None, Some(&[0x00u8][..])] {
        let mut c = Compass::default();
        let steps = probe(&mut c, qmc, Some(b"H43"));
        assert!(
            steps[2..]
                == [
                    write(0x1E, 0x00, 0x70),
                    write(0x1E, 0x01, 0xA0),
                    write(0x1E, 0x02, 0x00),
                    ProbeStep::Done(MagKind::Hmc5883l),
                ]
        );
        assert_eq!(c.kind().name(), "HMC5883L");
        assert!(c.read_request() == Some(BusOp::Read { addr: 0x1E, reg: 0x03, len: 6 }));
        let s = c.read(Some([0x00, 0x01, 0x00, 0x03, 0xFF, 0xFE]));
        assert_eq!((s.counts, s.lsb_per_gauss, s.healthy), ([1, -2, 3], 1090, true));
    }
}

#[test]
fn compass_absent() {
    let mut c = Compass::new();
    let steps = probe(&mut c, None, Some(b"H44"));
    assert_eq!(steps.len(), 3);
    assert!(steps[2] == ProbeStep::Done(MagKind::Absent));
    assert_eq!(c.kind().name(), "none");
    assert!(c.read_request().is_none());
    assert!(!c.read(Some([1; 6])).healthy);
    probe(&mut c, Some(&[0xFF]), None);
    probe(&mut c, None, None);
    assert!(c.kind() == MagKind::Absent);
}

#[test]
fn compass_rotations() {
    let x = v(1.0, 2.0, 3.0);
    assert_eq!(f(MagRotation::Unrotated.apply(x)), [1.0, 2.0, 3.0]);
    assert_eq!(f(MagRotation::Yaw90.apply(x)), [-2.0, 1.0, 3.0]);
    assert_eq!(f(MagRotation::Yaw180.apply(x)), [-1.0, -2.0, 3.0]);
    assert_eq!(f(MagRotation::Yaw270.apply(x)), [2.0, -1.0, 3.0]);
    assert_eq!(f(MagRotation::Roll180.apply(x)), [1.0, -2.0, -3.0]);
    let turned = MagRotation::Yaw270.apply(MagRotation::Yaw90.apply(x));
    assert_eq!(f(turned), [1.0, 2.0, 3.0]);
}

fn correct(raw: [F32Bits; 3], offset: [F32Bits; 3], scale: [F32Bits; 3]) -> [F32Bits; 3] {
    let (r, o, s) = (f(raw), f(offset), f(scale));
    v((r[0] - o[0]) * s[0], (r[1] - o[1]) * s[1], (r[2] - o[2]) * s[2])
}

#[test]
fn compass_correction_comes_before_rotation() {
    let mut c = MagCal::new(MagRotation::Yaw90, v(0.5, 0.0, 0.0), v(2.0, 1.0, 1.0));
    assert!(c.rotation() == MagRotation::Yaw90);
    assert_eq!((f(c.offset()), f(c.scale())), ([0.5, 0.0, 0.0], [2.0, 1.0, 1.0]));
    assert_eq!(f(c.apply(v(1.5, 3.0, 4.0), &correct)), [-3.0, 2.0, 4.0]);
    assert_eq!(f(MagCal::identity().apply(v(1.0, 2.0, 3.0), &correct)), [1.0, 2.0, 3.0]);
}

#[test]
fn compass_collects_extremes() {
    let mut c = MagCal::identity();
    c.apply(v(9.0, 9.0, 9.0), &correct);
    let (lo, hi) = c.extremes();
    assert_eq!((f(lo), f(hi)), ([0.0; 3], [0.0; 3]));
    c.start_collection();
    let (lo, hi) = c.extremes();
    assert_eq!((f(lo), f(hi)), ([f32::MAX; 3], [f32::MIN; 3]));
    for p in [v(1.0, -2.0, 0.5), v(-1.0, 4.0, f32::NAN), v(0.0, 0.0, 0.25)] {
        c.apply(p, &correct);
    }
    let (lo, hi) = c.extremes();
    assert_eq!((f(lo), f(hi)), ([-1.0, -2.0, 0.25], [1.0, 4.0, 0.5]));
    c.finish_collection(v(1.0, 3.0, 0.125), v(0.0, 1.0, 0.375), v(1.5, 0.5, 8.0));
    assert_eq!((f(c.offset), f(c.scale)), ([0.0, 1.0, 0.375], [1.5, 0.5, 8.0]));
    c.apply(v(100.0, 100.0, 100.0), &correct);
    assert_eq!(f(c.extremes().1), [1.0, 4.0, 0.5]);
}

#[test]
fn compass_too_little_motion_changes_nothing() {
    for range in [v(0.0, 1.0, 1.0), v(1.0, -1.0, 1.0), v(1.0, 1.0, -0.0)] {
        let mut c = MagCal::identity();
        c.start_collection();
        c.finish_collection(range, v(7.0, 7.0, 7.0), v(7.0, 7.0, 7.0));
        assert_eq!((f(c.offset), f(c.scale)), ([0.0; 3], [1.0; 3]));
    }
}
