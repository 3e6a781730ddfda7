use gridish::coordinates::metres::Metres;
use gridish::coordinates::point::Point;
use gridish::{Error, Precision};

struct TestPoint {
    eastings: u32,
    northings: u32,
    precision: Precision,
}

const VALID_POINTS: [(&'static str, TestPoint); 2] = [
    (
        "N",
        TestPoint {
            eastings: 200_000,
            northings: 200_000,
            precision: Precision::_100Km,
        },
    ),
    (
        "N24",
        TestPoint {
            eastings: 220_000,
            northings: 240_000,
            precision: Precision::_10Km,
        },
    ),
];

const VALID_TETRADS: [(&'static str, TestPoint); 2] = [
    (
        "L03P",
        TestPoint {
            eastings: 4_000,
            northings: 238_000,
            precision: Precision::_2Km,
        },
    ),
    (
        "N24R",
        TestPoint {
            eastings: 226_000,
            northings: 242_000,
            precision: Precision::_2Km,
        },
    ),
];

#[test]
fn recalculates_precision_on_initialisation() {
    let eastings = 123.try_into().unwrap();
    let northings = 2000.try_into().unwrap();
    let precision = Precision::_10M;

    let point = Point::new(eastings, northings, precision);

    assert_eq!(point.eastings(), 120.try_into().unwrap());
    assert_eq!(point.northings(), 2000.try_into().unwrap());
}

#[test]
fn point_parses_valid_strings() {
    for point in VALID_POINTS {
        let grid_point: Point = point.0.parse().unwrap();

        assert_eq!(grid_point.eastings().inner(), point.1.eastings);
        assert_eq!(grid_point.northings().inner(), point.1.northings);
        assert_eq!(grid_point.precision(), point.1.precision);
    }
}

#[test]
fn point_prints_valid_strings() {
    for point in VALID_POINTS.into_iter().chain(VALID_TETRADS) {
        let eastings = point.1.eastings.try_into().unwrap();
        let northings = point.1.northings.try_into().unwrap();
        let grid_point = Point::new(eastings, northings, point.1.precision);

        assert_eq!(grid_point.to_string(), point.0);
    }
}

#[test]
fn parses_valid_tetrads() {
    for point in VALID_TETRADS {
        let grid_point: Point = point.0.parse().unwrap();

        assert_eq!(grid_point.eastings().inner(), point.1.eastings);
        assert_eq!(grid_point.northings().inner(), point.1.northings);
        assert_eq!(grid_point.precision(), point.1.precision);
    }
}

#[test]
fn point_rejects_empty_and_unknown_letters() {
    assert_eq!(
        Point::parse(""),
        Err(Error::ParseError("String can not be empty.".to_string()))
    );
    assert_eq!(
        Point::parse("I12"),
        Err(Error::ParseError("I is not a valid grid square.".to_string()))
    );
    // O names no tetrad.
    assert_eq!(
        Point::parse("N24O"),
        Err(Error::ParseError("O is not a valid grid square.".to_string()))
    );
}

#[test]
fn point_tetrad_digits_are_checked() {
    assert_eq!(
        Point::parse("NABC"),
        Err(Error::ParseError(
            "ParseIntError { kind: InvalidDigit }".to_string()
        ))
    );
}

#[test]
fn point_new_truncates_to_tetrads() {
    let e = Metres::new(227_999).unwrap();
    let n = Metres::new(243_999).unwrap();
    let point = Point::new(e, n, Precision::_2Km);
    assert_eq!(point.eastings().inner(), 226_000);
    assert_eq!(point.northings().inner(), 242_000);
    assert_eq!(point.to_string(), "N24R");
}
