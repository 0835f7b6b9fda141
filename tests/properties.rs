use hike_sms::{Command, ErrorKind, Point, Projection, Storage};

fn only_point(c: &Command) -> &Point {
    match c {
        Command::Checkin(p) => p,
        Command::Create(ps) | Command::Edit(ps) => &ps[0],
        Command::Complete => panic!("no point"),
    }
}

fn northings_of(token: &str) -> u32 {
    let c = Command::parse(&format!("checkin 33 {} E123456", token)).unwrap();
    only_point(&c).position.northings
}

fn eastings_of(token: &str) -> u32 {
    let c = Command::parse(&format!("checkin 33 N1234567 {}", token)).unwrap();
    only_point(&c).position.eastings
}

#[test]
fn full_width_is_unchanged() {
    assert_eq!(northings_of("N7428602"), 7428602);
    assert_eq!(northings_of("7428602"), 7428602);
    assert_eq!(northings_of("n7428602.999"), 7428602);
    assert_eq!(eastings_of("E618000"), 618000);
    assert_eq!(eastings_of("618000,5"), 618000);
}

#[test]
fn abbreviations_scale_by_missing_digits() {
    assert_eq!(northings_of("N742"), 7420000);
    assert_eq!(northings_of("N7428"), 7428000);
    assert_eq!(northings_of("N74286"), 7428600);
    assert_eq!(eastings_of("E618"), 618000);
    assert_eq!(eastings_of("e6181"), 618100);
    assert_eq!(eastings_of("E61812"), 618120);
}

#[test]
fn two_digit_abbreviation_is_no_coordinate() {
    assert_eq!(
        Command::parse("checkin 33 N74 E123456").unwrap_err().error,
        ErrorKind::NotRecognised
    );
}

#[test]
fn each_zone_has_its_code() {
    let zones = [
        ("UTM32", Projection::UTM32, 25832),
        ("utm33", Projection::UTM33, 25833),
        ("Utm34", Projection::UTM34, 25834),
        ("35", Projection::UTM35, 25835),
    ];
    for (token, zone, srid) in zones {
        let c = Command::parse(&format!("checkin {} N1234567 E123456", token)).unwrap();
        assert_eq!(only_point(&c).position.projection, zone);
        assert_eq!(zone.srid(), srid);
    }
}

#[test]
fn projection_needs_exactly_two_digits() {
    for token in ["3", "333"] {
        assert_eq!(
            Command::parse(&format!("checkin {} N1234567 E123456", token)).unwrap_err().error,
            ErrorKind::NotRecognised
        );
    }
}

#[test]
fn leap_days_in_range() {
    assert!(Command::parse("checkin 33 N1234567 E123456 2000-02-29").is_ok());
    assert!(Command::parse("checkin 33 N1234567 E123456 2024-02-29").is_ok());
    assert_eq!(
        Command::parse("checkin 33 N1234567 E123456 2100-02-29").unwrap_err().error,
        ErrorKind::ParseDate
    );
    assert_eq!(
        Command::parse("checkin 33 N1234567 E123456 2100-02-28").unwrap_err().error,
        ErrorKind::DateOutOfRange
    );
}

#[test]
fn escaped_message_reads_back() {
    let text = "say \"hi\" twice \"\"";
    let escaped = text.replace('"', "\\\"");
    let c = Command::parse(&format!("checkin 33 N1234567 E123456 \"{}\"", escaped)).unwrap();
    assert_eq!(only_point(&c).message.as_deref(), Some(text));
}

#[test]
fn reordering_fields_gives_the_same_point() {
    let orders = [
        "checkin 33 N1234567 E123456 food \"x\" 2020-01-02 03:04:05",
        "checkin N1234567 33 E123456 \"x\" food 2020-01-02 03:04:05",
        "checkin E123456 N1234567 33 2020-01-02 03:04:05 \"x\" food",
        "checkin 33 E123456 N1234567 2020-01-02 03:04:05 food \"x\"",
    ];
    let first = Command::parse(orders[0]).unwrap();
    let p0 = only_point(&first);
    for input in &orders[1..] {
        let c = Command::parse(input).unwrap();
        let p = only_point(&c);
        assert_eq!(p.position, p0.position);
        assert_eq!(p.action, p0.action);
        assert_eq!(p.message, p0.message);
        assert_eq!(p.date, p0.date);
        assert_eq!(p.time, p0.time);
    }
}

#[test]
fn time_before_position_reads_as_zone() {
    assert_eq!(
        Command::parse("checkin 07:12 33 N1234567 E123456").unwrap_err().error,
        ErrorKind::ParseProjection
    );
}

#[test]
fn date_separated_from_time_is_two_readings() {
    assert_eq!(
        Command::parse("checkin 33 N1234567 E123456 2020-01-02 tent 03:04").unwrap_err().error,
        ErrorKind::NotRecognised
    );
}

#[test]
fn offsets_count_bytes() {
    let input = "checkin \"på väg\" 33 N1234567 E123456 1969-01-01";
    let e = Command::parse(input).unwrap_err();
    let at = input.find("1969").unwrap();
    assert_eq!(e.error, ErrorKind::DateOutOfRange);
    assert_eq!(e.input, at - 1);
    assert_eq!(e.span.map(|s| (s.start, s.end)), Some((at, at + 10)));
}

#[test]
fn trailing_offset_counts_bytes() {
    let input = "checkin \"ø\" 33 N1234567 E123456 ?";
    let e = Command::parse(input).unwrap_err();
    assert_eq!(e.error, ErrorKind::NotRecognised);
    assert_eq!(e.input, input.len() - 1);
    assert_eq!(e.span.map(|s| (s.start, s.end)), Some((input.len() - 1, input.len())));
}

#[test]
fn storage_follows_command_kind() {
    let p = "33 N1234567 E123456";
    assert_eq!(Command::parse(&format!("create {}", p)).unwrap().storage(), Storage::CreateHike);
    assert_eq!(Command::parse(&format!("edit {}", p)).unwrap().storage(), Storage::EditRoute);
    assert_eq!(Command::parse(&format!("checkin {}", p)).unwrap().storage(), Storage::EditRoute);
    assert_eq!(Command::parse("complete").unwrap().storage(), Storage::CompleteHike);
}

#[test]
fn several_points_in_order() {
    let c = Command::parse("create 33 N1111111 E111111 hut 33 N2222222 E222222 33 N3333333 E333333 tent").unwrap();
    match &c {
        Command::Create(ps) => {
            let n: Vec<u32> = ps.iter().map(|p| p.position.northings).collect();
            assert_eq!(n, vec![1111111, 2222222, 3333333]);
            assert_eq!(ps[2].action, Some(hike_sms::Action::Tent));
            assert_eq!(ps[1].action, None);
        }
        other => panic!("not a create: {:?}", other),
    }
}
