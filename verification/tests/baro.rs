use scky_fc::baro::{Baro, Coefficients, RawSample, SetupStep};
use scky_fc::bus::BusOp;
use scky_fc::float::F32Bits;

const COEF: [u8; 18] = [
    0x0C, 0xBE, 0xFB, 0x14, 0x0A, 0x4F, 0x24, 0x19, 0xF3, 0xA1, 0x05, 0x6C, 0xDE, 0xD6, 0x00, 0xFF,
    0xFA, 0x63,
];

fn setup(b: &mut Baro, id: Option<&[u8]>, ready_at: usize, coef: Option<&[u8]>) -> (Vec<SetupStep>, bool) {
    let mut steps = Vec::new();
    let mut reply = None;
    let mut polls = 0;
    loop {
        let s = b.init(reply);
        steps.push(s);
        reply = match s {
            SetupStep::Bus(BusOp::Read { addr: 0x76, reg: 0x0D, len: 1 }) => id,
            SetupStep::Bus(BusOp::Read { addr: 0x76, reg: 0x08, len: 1 }) => {
                polls += 1;
                if polls > ready_at { Some(&[0xC0][..]) } else { Some(&[0x80][..]) }
            }
            SetupStep::Bus(BusOp::Read { addr: 0x76, reg: 0x10, len: 18 }) => coef,
            SetupStep::Done(found) => return (steps, found),
            _ => None,
        }
    }
}

fn write(reg: u8, value: u8) -> SetupStep {
    SetupStep::Bus(BusOp::Write { addr: 0x76, reg, value })
}

fn delay(us: u32) -> SetupStep {
    SetupStep::Bus(BusOp::DelayUs(us))
}

#[test]
fn baro_setup() {
    let mut b = Baro::new();
    assert!(!b.present() && b.read_request().is_none());
    let (steps, found) = setup(&mut b, Some(&[0x10]), 2, Some(&COEF));
    assert!(found && b.present());
    assert!(steps[1..3] == [write(0x0C, 0x09), delay(40_000)]);
    assert!(steps[4] == delay(2_000) && steps[6] == delay(2_000));
    assert!(steps[9..] == [write(0x06, 0x33), write(0x07, 0xB3), write(0x09, 0x00), write(0x08, 0x07), SetupStep::Done(true)]);
    let expect = Coefficients {
        c0: 203,
        c1: -261,
        c00: 82084,
        c10: -56295,
        c01: -3167,
        c11: 1388,
        c20: -8490,
        c21: 255,
        c30: -1437,
    };
    assert!(b.coefficients() == expect);
}

#[test]
fn baro_wrong_or_missing_id() {
    for id in [None, Some(&[0x11u8][..])] {
        let mut b = Baro::new();
        let (steps, found) = setup(&mut b, id, 0, Some(&COEF));
        assert!(!found && steps.len() == 2);
        assert!(b.read(Some([1; 6])).is_none());
    }
}

#[test]
fn baro_gives_up_after_fifty_polls() {
    let mut b = Baro::new();
    let (steps, found) = setup(&mut b, Some(&[0x10]), 50, Some(&COEF));
    assert!(!found);
    assert_eq!(steps.len(), 104);
    let (_, found) = setup(&mut b, Some(&[0x10]), 49, Some(&COEF));
    assert!(found);
}

#[test]
fn baro_failed_coefficients() {
    let mut b = Baro::new();
    setup(&mut b, Some(&[0x10]), 0, Some(&COEF));
    let (_, found) = setup(&mut b, Some(&[0x10]), 0, None);
    assert!(!found && !b.present());
}

#[test]
fn baro_raw_sample() {
    let mut b = Baro::new();
    setup(&mut b, Some(&[0x10]), 0, Some(&COEF));
    assert!(b.read_request() == Some(BusOp::Read { addr: 0x76, reg: 0x00, len: 6 }));
    let s = b.read(Some([0xFF, 0xFF, 0xFE, 0x7F, 0xFF, 0xFF]));
    assert!(s == Some(RawSample { pressure: -2, temperature: 8_388_607 }));
    assert!(b.read(Some([0x80, 0, 0, 0, 1, 0])) == Some(RawSample { pressure: -8_388_608, temperature: 256 }));
    assert!(b.read(None).is_none());
}

#[test]
fn baro_reference_is_the_first_valid_pressure() {
    let p = |x: f32| F32Bits(x.to_bits());
    let mut b = Baro::new();
    assert_eq!(b.reference(p(30_000.0)), None);
    assert_eq!(b.reference(p(f32::NAN)), None);
    assert_eq!(b.reference(p(-5.0)), None);
    assert_eq!(b.reference(p(101_325.0)), Some(p(101_325.0)));
    assert_eq!(b.reference(p(90_000.0)), Some(p(101_325.0)));
}
