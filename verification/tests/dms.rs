use coordinates::{Axis, Coordinates, DmsAngle, DmsField, Failure, GeoParseError};

fn decimal_degrees(angle: &DmsAngle) -> f64 {
    let degrees: f64 = angle.degrees.parse().unwrap();
    let minutes: f64 = angle.minutes.parse().unwrap();
    let seconds: f64 = angle.seconds.parse().unwrap();
    degrees + minutes / 60. + seconds / 3600.
}

fn failure(lon: &str, lat: &str) -> GeoParseError {
    match Coordinates::new_from_string(lon, lat) {
        Ok(pair) => panic!("read {:?}", pair),
        Err(e) => e,
    }
}

#[test]
fn new_from_string_reads_the_example() {
    let pair = Coordinates::new_from_string("48° 51' 23.796''", "48° 51' 23.796''").unwrap();
    assert_eq!(pair.lon.degrees, "48");
    assert_eq!(pair.lon.minutes, "51");
    assert_eq!(pair.lon.seconds, "23.796");
    assert_eq!(pair.lat.degrees, "48");
    assert_eq!(pair.lat.minutes, "51");
    assert_eq!(pair.lat.seconds, "23.796");
    let expected = 48. + 51. / 60. + 23.796 / 3600.;
    assert_eq!(decimal_degrees(&pair.lon), expected);
    assert!((decimal_degrees(&pair.lat) - 48.8566).abs() < 1e-4);
}

#[test]
fn new_from_string_takes_the_longitude_first() {
    let pair = Coordinates::new_from_string("2° 21' 3.5532''", "48° 51' 23.796''").unwrap();
    assert_eq!(pair.lon.degrees, "2");
    assert_eq!(pair.lon.minutes, "21");
    assert_eq!(pair.lon.seconds, "3.5532");
    assert_eq!(pair.lat.degrees, "48");
    let point = Coordinates::new(
        decimal_degrees(&pair.lat).to_bits(),
        decimal_degrees(&pair.lon).to_bits(),
    );
    assert!((f64::from_bits(point.lon) - 2.350987).abs() < 1e-9);
    assert!((f64::from_bits(point.lat) - 48.856610).abs() < 1e-9);
    assert!(point.validate());
}

#[test]
fn new_from_string_fails_on_missing_unit_signs() {
    let e = failure("48 51 23.796", "48° 51' 23.796''");
    assert_eq!(
        e,
        GeoParseError { axis: Axis::Longitude, field: DmsField::Degrees, failure: Failure::NotANumber }
    );
    assert!(Coordinates::new_from_string("48° 51' 23.796''", "48 51 23.796").is_err());
}

#[test]
fn new_from_string_fails_on_too_few_tokens() {
    let e = failure("48° 51'", "48° 51' 23.796''");
    assert_eq!(
        e,
        GeoParseError { axis: Axis::Longitude, field: DmsField::Seconds, failure: Failure::MissingToken }
    );
    let e = failure("48° 51' 23.796''", "48°");
    assert_eq!(
        e,
        GeoParseError { axis: Axis::Latitude, field: DmsField::Minutes, failure: Failure::MissingToken }
    );
    let e = failure("", "");
    assert_eq!(
        e,
        GeoParseError { axis: Axis::Longitude, field: DmsField::Degrees, failure: Failure::MissingToken }
    );
    let e = failure(" \t\u{a0} ", "1° 1' 1''");
    assert_eq!(e.failure, Failure::MissingToken);
}

#[test]
fn new_from_string_fails_on_a_token_shorter_than_its_unit_sign() {
    let e = failure("4 51' 23.796''", "48° 51' 23.796''");
    assert_eq!(
        e,
        GeoParseError { axis: Axis::Longitude, field: DmsField::Degrees, failure: Failure::ShortToken }
    );
    let e = failure("48° 51' 2", "48° 51' 23.796''");
    assert_eq!(
        e,
        GeoParseError { axis: Axis::Longitude, field: DmsField::Seconds, failure: Failure::ShortToken }
    );
}

#[test]
fn new_from_string_fails_where_nothing_stands_before_the_unit_sign() {
    let e = failure("° 51' 23.796''", "48° 51' 23.796''");
    assert_eq!(e.field, DmsField::Degrees);
    assert_eq!(e.failure, Failure::NotANumber);
    let e = failure("48° ' 23.796''", "48° 51' 23.796''");
    assert_eq!(e.field, DmsField::Minutes);
    assert_eq!(e.failure, Failure::NotANumber);
    let e = failure("48° 51' ''", "48° 51' 23.796''");
    assert_eq!(e.field, DmsField::Seconds);
    assert_eq!(e.failure, Failure::NotANumber);
}

#[test]
fn new_from_string_fails_where_the_unit_sign_begins_inside_a_character() {
    let e = failure("48€ 51' 23.796''", "48° 51' 23.796''");
    assert_eq!(e.field, DmsField::Degrees);
    assert_eq!(e.failure, Failure::NotANumber);
    let e = failure("48° 51° 23.796''", "48° 51' 23.796''");
    assert_eq!(e.field, DmsField::Minutes);
    assert_eq!(e.failure, Failure::NotANumber);
    let e = failure("48° 51' 23.796°'", "48° 51' 23.796''");
    assert_eq!(e.field, DmsField::Seconds);
    assert_eq!(e.failure, Failure::NotANumber);
}

#[test]
fn new_from_string_reports_the_first_failure() {
    let e = failure("x° 51'", "");
    assert_eq!(
        e,
        GeoParseError { axis: Axis::Longitude, field: DmsField::Degrees, failure: Failure::NotANumber }
    );
    let e = failure("48° 51' 23.796''", "48° y' 2");
    assert_eq!(
        e,
        GeoParseError { axis: Axis::Latitude, field: DmsField::Minutes, failure: Failure::NotANumber }
    );
}

#[test]
fn new_from_string_measures_the_unit_signs_and_does_not_compare_them() {
    let pair = Coordinates::new_from_string("48xx 51m 23.796ss", "1é 2' 3\"\"").unwrap();
    assert_eq!(pair.lon.degrees, "48");
    assert_eq!(pair.lon.minutes, "51");
    assert_eq!(pair.lon.seconds, "23.796");
    assert_eq!(pair.lat.degrees, "1");
    assert_eq!(pair.lat.minutes, "2");
    assert_eq!(pair.lat.seconds, "3");
}

#[test]
fn new_from_string_reads_no_token_after_the_third() {
    let pair = Coordinates::new_from_string("48° 51' 23.796'' N", "2° 21' 3'' E !").unwrap();
    assert_eq!(pair.lon.seconds, "23.796");
    assert_eq!(pair.lat.seconds, "3");
}

#[test]
fn new_from_string_takes_any_white_space_between_tokens() {
    let pair =
        Coordinates::new_from_string("\t48°\u{a0}51'\n\n23.796''  ", "-2°\u{3000}+21'\r3e0''")
            .unwrap();
    assert_eq!(pair.lon.degrees, "48");
    assert_eq!(pair.lon.minutes, "51");
    assert_eq!(pair.lon.seconds, "23.796");
    assert_eq!(pair.lat.degrees, "-2");
    assert_eq!(pair.lat.minutes, "+21");
    assert_eq!(pair.lat.seconds, "3e0");
}

#[test]
fn new_from_string_gives_literals_that_the_float_parser_reads() {
    let pair = Coordinates::new_from_string("inf° NaN' 1e-3''", ".5° 5.' -0''").unwrap();
    for literal in [
        &pair.lon.degrees,
        &pair.lon.minutes,
        &pair.lon.seconds,
        &pair.lat.degrees,
        &pair.lat.minutes,
        &pair.lat.seconds,
    ] {
        assert!(literal.parse::<f64>().is_ok(), "{:?}", literal);
    }
    assert_eq!(pair.lon.degrees, "inf");
    assert_eq!(pair.lon.minutes, "NaN");
    assert_eq!(pair.lat.degrees, ".5");
}

#[test]
fn parse_reads_one_angle() {
    let angle = DmsAngle::parse("13° 24' 41.04''").unwrap();
    assert_eq!(angle.degrees, "13");
    assert_eq!(angle.minutes, "24");
    assert_eq!(angle.seconds, "41.04");
    assert!((decimal_degrees(&angle) - 13.4114).abs() < 1e-9);
}

#[test]
fn parse_names_the_field_that_fails() {
    assert_eq!(DmsAngle::parse("").unwrap_err(), (DmsField::Degrees, Failure::MissingToken));
    assert_eq!(DmsAngle::parse("1").unwrap_err(), (DmsField::Degrees, Failure::ShortToken));
    assert_eq!(DmsAngle::parse("1°").unwrap_err(), (DmsField::Minutes, Failure::MissingToken));
    assert_eq!(DmsAngle::parse("1° 2").unwrap_err(), (DmsField::Minutes, Failure::NotANumber));
    assert_eq!(DmsAngle::parse("1° 2'").unwrap_err(), (DmsField::Seconds, Failure::MissingToken));
    assert_eq!(DmsAngle::parse("1° 2' 3").unwrap_err(), (DmsField::Seconds, Failure::ShortToken));
    assert_eq!(DmsAngle::parse("1° 2' 3'").unwrap_err(), (DmsField::Seconds, Failure::NotANumber));
    assert!(DmsAngle::parse("1° 2' 3''").is_ok());
}

#[test]
fn message_names_axis_field_and_failure() {
    let e = GeoParseError {
        axis: Axis::Latitude,
        field: DmsField::Seconds,
        failure: Failure::MissingToken,
    };
    assert_eq!(e.message(), "latitude seconds: the text has fewer than three tokens");
    let e = failure("4 51' 23.796''", "");
    assert_eq!(e.message(), "longitude degrees: the token is shorter than its unit sign");
    let e = failure("48 51 23.796", "");
    assert_eq!(e.message(), "longitude degrees: what stands before the unit sign is no number");
    let e = GeoParseError {
        axis: Axis::Longitude,
        field: DmsField::Minutes,
        failure: Failure::NotANumber,
    };
    assert!(e.message().starts_with("longitude minutes: "));
}
