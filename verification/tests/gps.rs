use scky_fc::gps::{parse_gga, parse_rmc, GpsData, NmeaParser, Numbers, Unit};

fn number(text: &[u8]) -> Option<f32> {
    std::str::from_utf8(text).ok()?.parse().ok()
}

fn scaled(text: &[u8], unit: Unit) -> Option<i32> {
    let factor = match unit {
        Unit::Milli => 1000.0,
        Unit::Centi => 100.0,
        Unit::KnotsToCms => 51.4444,
    };
    Some((number(text)? * factor) as i32)
}

fn angle(deg: &[u8], min: &[u8]) -> Option<i32> {
    Some(((number(deg)? + number(min)? / 60.0) * 1.0e7) as i32)
}

fn feed(p: &mut NmeaParser, text: &str) -> usize {
    text.bytes().filter(|&b| p.push(b, &scaled, &angle)).count()
}

const GGA: &str = "$GPGGA,123519,4807.038,N,01131.000,E,1,08,0.9,545.4,M,46.9,M,,*47\r\n";
const RMC: &str = "$GPRMC,123519,A,4807.038,N,01131.000,E,022.4,084.4,230394,003.1,W*6A\r\n";

#[test]
fn gps_starts_without_a_fix() {
    let d = NmeaParser::new().data();
    assert_eq!((d.fix_type, d.sats, d.eph, d.cog_cdeg), (0, 0, 65535, 65535));
    assert_eq!(GpsData::default().sentences, 0);
}

#[test]
fn gps_gga() {
    let mut p = NmeaParser::new();
    assert_eq!(feed(&mut p, GGA), 1);
    let d = p.data();
    assert_eq!((d.fix_type, d.sats), (3, 8));
    assert_eq!((d.lat_e7, d.lon_e7), (481172992, 115166664));
    assert_eq!((d.alt_mm, d.eph), (545400, 90));
    assert_eq!((d.vel_cms, d.cog_cdeg), (0, 65535));
    assert_eq!(d.sentences, 1);
}

#[test]
fn gps_rmc_merges() {
    let mut p = NmeaParser::new();
    assert_eq!(feed(&mut p, GGA) + feed(&mut p, RMC), 2);
    let d = p.data();
    assert_eq!((d.vel_cms, d.cog_cdeg), (1152, 8440));
    assert_eq!((d.fix_type, d.lat_e7), (3, 481172992));
    assert_eq!(d.sentences, 2);
}

#[test]
fn gps_south_west_no_fix_and_wrapped_sats() {
    let mut p = NmeaParser::new();
    let text = "$GNGGA,000000,3351.500,S,15112.250,W,0,300,99.9,-12.5,M,,M,,*5D\n";
    assert_eq!(feed(&mut p, text), 1);
    let d = p.data();
    assert_eq!((d.fix_type, d.sats), (0, 44));
    assert_eq!((d.lat_e7, d.lon_e7), (-338583328, -1512041600));
    assert_eq!((d.alt_mm, d.eph), (-12500, 9990));
}

#[test]
fn gps_lower_case_checksum() {
    let mut p = NmeaParser::new();
    assert_eq!(feed(&mut p, &RMC.replace("*6A", "*6a")), 1);
}

#[test]
fn gps_rejects_bad_checksums() {
    for bad in ["*48", "*", "*4", "*4G", "", "*GG"] {
        let mut p = NmeaParser::new();
        assert_eq!(feed(&mut p, &GGA.replace("*47", bad)), 0, "{}", bad);
        assert_eq!(p.data().sentences, 0);
    }
}

#[test]
fn gps_rejects_an_altered_body() {
    let mut p = NmeaParser::new();
    assert_eq!(feed(&mut p, &GGA.replace("4807", "4808")), 0);
    assert_eq!(p.data().lat_e7, 0);
}

#[test]
fn gps_ignores_other_sentences() {
    let mut p = NmeaParser::new();
    assert_eq!(feed(&mut p, "$GPGSV,1,1,00*79\r\n$AB*03\r\n\r\n"), 0);
    assert_eq!(feed(&mut p, GGA), 1);
}

#[test]
fn gps_a_dollar_restarts_the_line() {
    let mut p = NmeaParser::new();
    feed(&mut p, "$GPGGA,1235");
    assert_eq!(feed(&mut p, GGA), 1);
}

#[test]
fn gps_overlong_line_is_dropped() {
    let body = "GPGGA,".to_string() + &"1".repeat(92);
    let sum = body.bytes().fold(0u8, |a, b| a ^ b);
    let fits = format!("${}*{:02X}", &body[..97], body.bytes().take(97).fold(0u8, |a, b| a ^ b));
    let long = format!("${}*{:02X}", body, sum);
    assert_eq!((fits.len() - 1, long.len() - 1), (100, 101));
    let mut p = NmeaParser::new();
    assert_eq!(feed(&mut p, &(long + "\r\n")), 0);
    assert_eq!(feed(&mut p, &(fits + "\r\n")), 1);
}

#[test]
fn gps_missing_fields_keep_values() {
    let mut p = NmeaParser::new();
    feed(&mut p, GGA);
    let body = "GPGGA,,4807.038,,,E,,x,,";
    let sum = body.bytes().fold(0u8, |a, b| a ^ b);
    assert_eq!(feed(&mut p, &format!("${}*{:02X}\r", body, sum)), 1);
    let d = p.data();
    assert_eq!((d.fix_type, d.sats, d.eph), (0, 8, 90));
    assert_eq!((d.lat_e7, d.lon_e7), (481172992, 115166664));
}

#[test]
fn gps_short_coordinate_is_no_number() {
    let body = "GPGGA,,4,N,11,E,+2,+12,x,y";
    let sum = body.bytes().fold(0u8, |a, b| a ^ b);
    let mut p = NmeaParser::new();
    assert_eq!(feed(&mut p, &format!("${}*{:02X}\r", body, sum)), 1);
    let d = p.data();
    assert_eq!((d.fix_type, d.sats, d.lat_e7, d.lon_e7), (3, 12, 0, 0));
    assert_eq!((d.eph, d.alt_mm), (65535, 0));
}

#[test]
fn gps_numbers_saturate() {
    let none = Numbers { lat: None, lon: None, altitude: None, hdop: None, speed: None, course: None };
    let mut d = GpsData::default();
    parse_rmc(&mut d, Numbers { speed: Some(-5), course: Some(70000), ..none });
    assert_eq!((d.vel_cms, d.cog_cdeg), (0, 65535));
    parse_gga(&mut d, b"GPGGA,,1,S,1,E,4294967296,4294967295", Numbers { lat: Some(i32::MIN), lon: Some(7), hdop: Some(1), ..none });
    assert_eq!((d.lat_e7, d.lon_e7, d.eph), (i32::MIN, 7, 1));
    assert_eq!((d.fix_type, d.sats), (0, 255));
}

#[test]
fn gps_course_stays_in_the_circle() {
    for (course, cdeg) in [
        ("000.0", 0u16),
        ("359.99", 35999),
        ("360.0", 65535),
        ("360.01", 65535),
        ("655.35", 65535),
        ("-0.01", 0),
        ("-1.0", 0),
        ("-720.0", 0),
    ] {
        let body = format!("GPRMC,123519,A,4807.038,N,01131.000,E,022.4,{},230394", course);
        let sum = body.bytes().fold(0u8, |a, b| a ^ b);
        let mut p = NmeaParser::new();
        assert_eq!(feed(&mut p, &format!("${}*{:02X}\r", body, sum)), 1);
        assert_eq!(p.data().cog_cdeg, cdeg, "{}", course);
    }
    let none = Numbers { lat: None, lon: None, altitude: None, hdop: None, speed: None, course: None };
    for (v, cdeg) in [
        (35_999, 35_999u16),
        (36_000, 65_535),
        (i32::MAX, 65_535),
        (-1, 0),
        (-500, 0),
        (i32::MIN, 0),
    ] {
        let mut d = GpsData::default();
        parse_rmc(&mut d, Numbers { course: Some(v), ..none });
        assert_eq!(d.cog_cdeg, cdeg);
        parse_rmc(&mut d, none);
        assert_eq!(d.cog_cdeg, cdeg);
    }
}
