use hike_sms::{Action, Command, Date, Error, ErrorKind, ParseError, Point, Position, Projection, Time};

fn single_point(c: &Command) -> &Point {
    match c {
        Command::Checkin(p) => p,
        Command::Create(ps) | Command::Edit(ps) => {
            assert_eq!(ps.len(), 1);
            &ps[0]
        }
        Command::Complete => panic!("no point in a complete command"),
    }
}

fn kind_of(r: Result<Command, ParseError>) -> ErrorKind {
    match r {
        Ok(c) => panic!("parsed unexpectedly: {:?}", c),
        Err(e) => e.error,
    }
}

#[test]
fn create_with_all_fields() {
    let input = "create\n33 E618 7428602.235 2020-11-10 07:12:36 tent\n\"Start of hike! Getting of the bus here.\"";
    let c = Command::parse(input).unwrap();
    let ps = match &c {
        Command::Create(ps) => ps,
        other => panic!("not a create: {:?}", other),
    };
    assert_eq!(ps.len(), 1);
    let p = &ps[0];
    assert_eq!(
        p.position,
        Position { projection: Projection::UTM33, eastings: 618000, northings: 7428602 }
    );
    assert_eq!(p.action, Some(Action::Tent));
    assert_eq!(p.message.as_deref(), Some("Start of hike! Getting of the bus here."));
    assert_eq!(p.date, Some(Date { year: 2020, month: 11, day: 10 }));
    assert_eq!(p.time, Some(Time { hour: 7, minute: 12, second: 36 }));
}

#[test]
fn checkin_position_only() {
    let c = Command::parse("checkin 32 N1234567 E123456").unwrap();
    match &c {
        Command::Checkin(p) => {
            assert_eq!(
                p.position,
                Position { projection: Projection::UTM32, eastings: 123456, northings: 1234567 }
            );
            assert_eq!(p.action, None);
            assert_eq!(p.message, None);
            assert_eq!(p.date, None);
            assert_eq!(p.time, None);
        }
        other => panic!("not a checkin: {:?}", other),
    }
}

#[test]
fn complete_alone() {
    assert!(matches!(Command::parse("complete"), Ok(Command::Complete)));
}

#[test]
fn unsupported_zone_is_fatal() {
    assert_eq!(kind_of(Command::parse("create 99 N1234567 E123456")), ErrorKind::ParseProjection);
}

#[test]
fn date_after_range_is_fatal() {
    assert_eq!(
        kind_of(Command::parse("create 33 N1234567 E123456 2031-01-01")),
        ErrorKind::DateOutOfRange
    );
}

#[test]
fn unknown_word_not_recognised_at_start() {
    let e = Command::parse("banana").unwrap_err();
    assert_eq!(e.error, ErrorKind::NotRecognised);
    assert_eq!(e.input, 0);
    assert_eq!(e.span, None);
    assert_eq!(e.description(), "Failed to parse input");
}

#[test]
fn trailing_text_not_recognised_where_it_starts() {
    let e = Command::parse("complete now").unwrap_err();
    assert_eq!(e.error, ErrorKind::NotRecognised);
    assert_eq!(e.input, 9);
    assert_eq!(e.span.map(|s| (s.start, s.end)), Some((9, 12)));
}

#[test]
fn trailing_whitespace_is_consumed() {
    assert!(matches!(Command::parse("complete \n\t "), Ok(Command::Complete)));
    assert!(Command::parse(" complete").is_err());
}

#[test]
fn keywords_ignore_case() {
    let c = Command::parse("CheckIn utm32 n1234567 e123456 TENT").unwrap();
    let p = single_point(&c);
    assert_eq!(p.position.projection, Projection::UTM32);
    assert_eq!(p.action, Some(Action::Tent));
    let c = Command::parse("EDIT 35 N1234567 E123456 Food 34 N7654321 E654321 hut").unwrap();
    match &c {
        Command::Edit(ps) => {
            assert_eq!(ps.len(), 2);
            assert_eq!(ps[0].position.projection, Projection::UTM35);
            assert_eq!(ps[0].action, Some(Action::Food));
            assert_eq!(ps[1].position.projection, Projection::UTM34);
            assert_eq!(ps[1].position.northings, 7654321);
            assert_eq!(ps[1].action, Some(Action::Hut));
        }
        other => panic!("not an edit: {:?}", other),
    }
}

#[test]
fn create_needs_a_point() {
    assert_eq!(kind_of(Command::parse("create")), ErrorKind::NotRecognised);
    assert_eq!(kind_of(Command::parse("edit")), ErrorKind::NotRecognised);
    assert_eq!(kind_of(Command::parse("checkin")), ErrorKind::NotRecognised);
}

#[test]
fn checkin_takes_one_point() {
    let e = Command::parse("checkin 32 N1234567 E123456 33 N1234567 E123456").unwrap_err();
    assert_eq!(e.error, ErrorKind::NotRecognised);
    assert_eq!(e.input, 28);
}

#[test]
fn full_width_coordinates_kept() {
    let c = Command::parse("checkin 34 N0000001 E000002").unwrap();
    let p = single_point(&c);
    assert_eq!(p.position.northings, 1);
    assert_eq!(p.position.eastings, 2);
}

#[test]
fn abbreviated_coordinates_scaled() {
    let c = Command::parse("checkin 33 N742 E618").unwrap();
    let p = single_point(&c);
    assert_eq!(p.position.northings, 7420000);
    assert_eq!(p.position.eastings, 618000);
    let c = Command::parse("checkin 33 n123456 e12345").unwrap();
    let p = single_point(&c);
    assert_eq!(p.position.northings, 1234560);
    assert_eq!(p.position.eastings, 123450);
}

#[test]
fn decimals_of_full_coordinates_dropped() {
    let c = Command::parse("checkin 33 N1234567,89 E123456.7").unwrap();
    let p = single_point(&c);
    assert_eq!(p.position.northings, 1234567);
    assert_eq!(p.position.eastings, 123456);
}

#[test]
fn short_coordinate_with_decimals_is_fatal() {
    assert_eq!(kind_of(Command::parse("checkin 33 N12345.6 E123456")), ErrorKind::ParseCoordinate);
}

#[test]
fn unprefixed_short_coordinate_not_recognised() {
    assert_eq!(kind_of(Command::parse("checkin 33 123 E123456")), ErrorKind::NotRecognised);
}

#[test]
fn huge_number_is_fatal() {
    assert_eq!(kind_of(Command::parse("checkin 33 N99999999999 E123456")), ErrorKind::ParseNumber);
}

#[test]
fn position_fields_in_any_order() {
    let a = Command::parse("checkin 33 N1234567 E123456").unwrap();
    let b = Command::parse("checkin E123456 33 N1234567").unwrap();
    let c = Command::parse("checkin 1234567 123456 UTM33").unwrap();
    for x in [&b, &c] {
        assert_eq!(single_point(x).position, single_point(&a).position);
    }
}

#[test]
fn optional_fields_in_any_order() {
    let a = Command::parse("checkin 33 N1234567 E123456 hut \"a \\\"b\\\"\" 2021-02-03 04:05").unwrap();
    let b = Command::parse("checkin 33 N1234567 E123456 2021-02-03 04:05 \"a \\\"b\\\"\" hut").unwrap();
    let c = Command::parse("checkin \"a \\\"b\\\"\" 2021-02-03 04:05 hut E123456 33 N1234567").unwrap();
    for x in [&a, &b, &c] {
        let p = single_point(x);
        assert_eq!(p.position, Position { projection: Projection::UTM33, eastings: 123456, northings: 1234567 });
        assert_eq!(p.action, Some(Action::Hut));
        assert_eq!(p.message.as_deref(), Some("a \"b\""));
        assert_eq!(p.date, Some(Date { year: 2021, month: 2, day: 3 }));
        assert_eq!(p.time, Some(Time { hour: 4, minute: 5, second: 0 }));
    }
}

#[test]
fn date_and_time_alone() {
    let c = Command::parse("checkin 33 N1234567 E123456 1999-12-31").unwrap();
    let p = single_point(&c);
    assert_eq!(p.date, Some(Date { year: 1999, month: 12, day: 31 }));
    assert_eq!(p.time, None);
    let c = Command::parse("checkin 33 N1234567 E123456 23:59:59").unwrap();
    let p = single_point(&c);
    assert_eq!(p.date, None);
    assert_eq!(p.time, Some(Time { hour: 23, minute: 59, second: 59 }));
}

#[test]
fn date_range_edges() {
    assert!(Command::parse("checkin 33 N1234567 E123456 1970-01-01").is_ok());
    assert!(Command::parse("checkin 33 N1234567 E123456 2029-12-31").is_ok());
    assert_eq!(
        kind_of(Command::parse("checkin 33 N1234567 E123456 1969-12-31")),
        ErrorKind::DateOutOfRange
    );
    assert_eq!(
        kind_of(Command::parse("checkin 33 N1234567 E123456 2030-01-01")),
        ErrorKind::DateOutOfRange
    );
}

#[test]
fn impossible_dates_are_fatal() {
    assert_eq!(kind_of(Command::parse("checkin 33 N1234567 E123456 2021-13-01")), ErrorKind::ParseDate);
    assert_eq!(kind_of(Command::parse("checkin 33 N1234567 E123456 2021-02-29")), ErrorKind::ParseDate);
    assert!(Command::parse("checkin 33 N1234567 E123456 2020-02-29").is_ok());
    assert_eq!(kind_of(Command::parse("checkin 33 N1234567 E123456 1900-02-29")), ErrorKind::ParseDate);
}

#[test]
fn impossible_times_are_fatal() {
    assert_eq!(kind_of(Command::parse("checkin 33 N1234567 E123456 24:00")), ErrorKind::ParseTime);
    assert_eq!(kind_of(Command::parse("checkin 33 N1234567 E123456 12:60")), ErrorKind::ParseTime);
    assert_eq!(kind_of(Command::parse("checkin 33 N1234567 E123456 12:00:60")), ErrorKind::ParseTime);
}

#[test]
fn messages_unescape_quotes_only() {
    let c = Command::parse("checkin 33 N1234567 E123456 \"back\\\\slash \\\"q\\\"\"").unwrap();
    let p = single_point(&c);
    assert_eq!(p.message.as_deref(), Some("back\\\\slash \"q\""));
}

#[test]
fn messages_keep_other_characters() {
    let c = Command::parse("checkin 33 N1234567 E123456 \"Rast på toppen ✓\"").unwrap();
    let p = single_point(&c);
    assert_eq!(p.message.as_deref(), Some("Rast på toppen ✓"));
}

#[test]
fn empty_message_not_recognised() {
    assert_eq!(kind_of(Command::parse("checkin 33 N1234567 E123456 \"\"")), ErrorKind::NotRecognised);
}

#[test]
fn projection_codes() {
    let cases = [("32", 25832u32), ("33", 25833), ("34", 25834), ("35", 25835)];
    for (code, srid) in cases {
        let c = Command::parse(&format!("checkin {} N1234567 E123456", code)).unwrap();
        assert_eq!(single_point(&c).position.projection.srid(), srid);
    }
    for code in ["31", "36", "00", "UTM99"] {
        assert_eq!(
            kind_of(Command::parse(&format!("checkin {} N1234567 E123456", code))),
            ErrorKind::ParseProjection
        );
    }
}

#[test]
fn fatal_error_spans_the_field() {
    let e = Command::parse("create 99 N1234567 E123456").unwrap_err();
    assert_eq!(e.input, 6);
    assert_eq!(e.span.map(|s| (s.start, s.end)), Some((7, 9)));
    assert_eq!(e.description(), "Failed to parse projection");
}

#[test]
fn error_descriptions() {
    let e = ParseError::new(3, None, ErrorKind::DateOutOfRange);
    assert_eq!(e.description(), "Date out of range");
    assert_eq!(e.span(), None);
}
