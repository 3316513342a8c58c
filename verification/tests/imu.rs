use scky_fc::imu::{Health, Imu, ImuOut, InitAction, Sample};

fn bring_up(imu: &mut Imu, id: u8) -> (Vec<InitAction>, Health) {
    let mut actions = Vec::new();
    let mut reply = 0xAA;
    loop {
        let a = imu.init(reply);
        actions.push(a);
        match a {
            InitAction::Transfer(0xF5, _) => reply = id,
            InitAction::Done(h) => return (actions, h),
            _ => reply = 0x55,
        }
    }
}

#[test]
fn imu_known_part_is_configured() {
    let mut imu = Imu::new();
    assert!(imu.health() == Health::Unknown);
    let (actions, h) = bring_up(&mut imu, 0x47);
    assert!(h == Health::Healthy(0x47) && imu.health == h);
    let expect = [
        InitAction::Transfer(0x11, 0x01),
        InitAction::DelayUs(2_000),
        InitAction::Transfer(0xF5, 0x00),
        InitAction::Transfer(0x4F, 0x06),
        InitAction::Transfer(0x50, 0x06),
        InitAction::Transfer(0x4E, 0x0F),
        InitAction::DelayUs(1_000),
        InitAction::Done(Health::Healthy(0x47)),
    ];
    assert!(actions == expect);
}

#[test]
fn imu_faults_stop_the_bring_up() {
    for id in [0x00, 0xFF, 0x46, 0x12] {
        let mut imu = Imu::new();
        let (actions, h) = bring_up(&mut imu, id);
        assert_eq!(actions.len(), 4);
        assert!(h == Health::Bad(id));
        assert_eq!((h.whoami(), h.name(), h.is_ok()), (id, "INVALID", false));
        let (_, h) = bring_up(&mut imu, 0x42);
        assert!(h == Health::Healthy(0x42));
    }
}

#[test]
fn imu_names() {
    for (id, name) in [
        (0x47, "ICM-42688-P"),
        (0x42, "ICM-42605"),
        (0x6F, "IIM-42652"),
        (0x49, "ICM-42686-P"),
        (0x67, "ICM-42670-P"),
        (0x3B, "ICM-40609-D"),
        (0xE9, "ICM-45686"),
        (0xDB, "ICM-40605"),
    ] {
        let (_, h) = bring_up(&mut Imu::new(), id);
        assert!(h == Health::Healthy(id));
        assert_eq!((h.name(), h.whoami()), (name, id));
    }
    assert_eq!(Health::Healthy(0x01).name(), "UNKNOWN-v3");
    assert_eq!((Health::default().name(), Health::default().whoami()), ("?", 0));
}

#[test]
fn imu_sample() {
    let req = Imu::read_request();
    assert_eq!(req[0], 0x9D);
    assert!(req[1..].iter().all(|&b| b == 0));
    let buf = [
        0x00, 0xFF, 0xFE, 0x08, 0x00, 0x80, 0x00, 0x00, 0x01, 0x7F, 0xFF, 0x12, 0x34, 0xFF, 0xFF,
    ];
    let s = Imu::read(&buf);
    assert_eq!(s.temp, -2);
    assert_eq!(s.acc, [2048, -32768, 1]);
    assert_eq!(s.gyr, [32767, 0x1234, -1]);
    assert_eq!(Sample::default().acc, [0; 3]);
}

#[test]
fn imu_unread_output() {
    let o = ImuOut::unread(Health::Bad(3));
    assert!(o.health == Health::Bad(3));
    assert!(o.gyro.iter().chain(o.accel.iter()).all(|x| x.0 == 0));
    assert!(ImuOut::default().health == Health::Unknown);
}
