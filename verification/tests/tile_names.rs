use atldp::hgt::{hgt_name, parse_hgt_name};

#[test]
fn hgt_name_pads_and_signs() {
    assert_eq!(hgt_name(-23, -43), "S23W043.hgt");
    assert_eq!(hgt_name(0, 0), "N00E000.hgt");
    assert_eq!(hgt_name(5, -120), "N05W120.hgt");
    assert_eq!(hgt_name(-1, 7), "S01E007.hgt");
    assert_eq!(hgt_name(123, 1234), "N123E1234.hgt");
    assert_eq!(hgt_name(i32::MAX, -i32::MAX), "N2147483647W2147483647.hgt");
}

#[test]
fn parse_hgt_name_reads_corner() {
    assert_eq!(parse_hgt_name("S23W043"), Some((-23, -43)));
    assert_eq!(parse_hgt_name("N00E000"), Some((0, 0)));
    assert_eq!(parse_hgt_name("s23w043"), Some((-23, -43)));
    assert_eq!(parse_hgt_name("n45e007"), Some((45, 7)));
    // Only the first seven bytes are read.
    assert_eq!(parse_hgt_name("N45E007_extra"), Some((45, 7)));
    // `str::parse::<i32>` accepts a sign.
    assert_eq!(parse_hgt_name("N-5E+01"), Some((-5, 1)));
    assert_eq!(parse_hgt_name("S-5W-01"), Some((5, 1)));
}

#[test]
fn parse_hgt_name_rejects_malformed() {
    assert_eq!(parse_hgt_name("S23W04"), None);
    assert_eq!(parse_hgt_name(""), None);
    assert_eq!(parse_hgt_name("X23W043"), None);
    assert_eq!(parse_hgt_name("S23X043"), None);
    assert_eq!(parse_hgt_name("S2AW043"), None);
    assert_eq!(parse_hgt_name("S23W0A3"), None);
    assert_eq!(parse_hgt_name("S+-W043"), None);
    assert_eq!(parse_hgt_name("S-W0043"), None);
    assert_eq!(parse_hgt_name("S 1W043"), None);
    assert_eq!(parse_hgt_name("Sé1W043"), None);
}

#[test]
fn name_round_trips_through_parser() {
    for lat in [-99, -23, -1, 0, 1, 45, 99] {
        for lon in [-999, -180, -43, -1, 0, 7, 180, 999] {
            let name = hgt_name(lat, lon);
            let stem = name.strip_suffix(".hgt").expect("suffix");
            assert_eq!(parse_hgt_name(stem), Some((lat, lon)), "{name}");
        }
    }
}
