use gridish::{Error, Precision, OSGB};

#[derive(Clone)]
pub struct TestGrid {
    pub eastings: u32,
    pub northings: u32,
    pub precision: Precision,
    pub input_string: String,
    pub output_string: String,
}

impl TestGrid {
    pub fn new(
        eastings: u32,
        northings: u32,
        precision: Precision,
        input_string: &str,
        output_string: &str,
    ) -> TestGrid {
        TestGrid {
            eastings,
            northings,
            precision,
            input_string: input_string.to_string(),
            output_string: output_string.to_string(),
        }
    }
}

pub fn osgb_grids() -> Vec<TestGrid> {
    [
        TestGrid::new(300_000, 200_000, Precision::_100Km, "SO", "SO"),
        TestGrid::new(380_000, 240_000, Precision::_10Km, "SO84", "SO84"),
        TestGrid::new(389_000, 243_000, Precision::_1Km, "SO8943", "SO8943"),
        TestGrid::new(389_200, 243_700, Precision::_100M, "SO892437", "SO892437"),
        TestGrid::new(
            389_290,
            243_760,
            Precision::_10M,
            "SO89294376",
            "SO89294376",
        ),
        TestGrid::new(
            389_291,
            243_762,
            Precision::_1M,
            "SO8929143762",
            "SO8929143762",
        ),
        TestGrid::new(224_000, 668_000, Precision::_1Km, "ns 24 68", "NS2468"),
        TestGrid::new(365_000, 620_000, Precision::_1Km, "NT6520", "NT6520"),
        TestGrid::new(512_300, 245_600, Precision::_100M, " TL123456 ", "TL123456"),
        TestGrid::new(503_400, 443_400, Precision::_100M, "Ta 0344 34", "TA034434"),
    ]
    .to_vec()
}

#[test]
fn osgb_parses_valid_strings() {
    let data = osgb_grids();

    for item in data {
        let grid: OSGB = item.input_string.parse().unwrap();

        assert_eq!(item.eastings, grid.sw().0);
        assert_eq!(item.northings, grid.sw().1);
        assert_eq!(item.precision, grid.precision());
    }
}

#[test]
fn osgb_rejects_invalid_strings() {
    assert_eq!(
        "TL123".parse::<OSGB>(),
        Err(Error::ParseError(
            "3 is not a valid number of digits. Supported values: 0, 2, 4, 6, 8, 10.".to_string()
        ))
    );

    assert_eq!(
        "123".parse::<OSGB>(),
        Err(Error::ParseError(
            "1 is not a valid grid square.".to_string()
        ))
    );

    assert_eq!(
        "T45".parse::<OSGB>(),
        Err(Error::ParseError(
            "4 is not a valid grid square.".to_string()
        ))
    );
}

#[test]
fn osgb_prints_correct_strings() {
    let data = osgb_grids();

    for item in data {
        let grid = OSGB::new(item.eastings, item.northings, item.precision).unwrap();

        assert_eq!(item.output_string, grid.to_string());
    }
}

#[test]
fn osgb_coordinates_are_correct() {
    let osgb = OSGB::new(0, 0, Precision::_100M).unwrap();
    let sw = osgb.sw();
    let nw = osgb.nw();
    let ne = osgb.ne();
    let se = osgb.se();

    assert_eq!(sw, (0, 0));
    assert_eq!(nw, (0, 100));
    assert_eq!(ne, (100, 100));
    assert_eq!(se, (100, 0));
    // The centre, (50, 50), in half metres.
    assert_eq!(osgb.centre_half_metres(), (100, 100));
    assert_eq!(osgb.perimeter(), vec![sw, nw, ne, se])
}

#[test]
fn osgb_formats_the_documented_reference() {
    let grid = OSGB::new(389_200, 243_700, Precision::_100M).unwrap();
    assert_eq!(grid.to_string(), "SO892437");
}

#[test]
fn osgb_recalculates_to_coarser_precision() {
    let grid: OSGB = "SO892437".parse().unwrap();
    let coarse = grid.recalculate(Precision::_10Km);
    assert_eq!(coarse.to_string(), "SO84");
    assert_eq!(coarse.sw(), (380_000, 240_000));
    assert_eq!(coarse.precision(), Precision::_10Km);
}

#[test]
fn osgb_recalculate_never_refines() {
    let grid: OSGB = "SO84".parse().unwrap();
    let same = grid.recalculate(Precision::_1M);
    assert_eq!(same, grid);
    assert_eq!(same.precision(), Precision::_10Km);
    assert_eq!(same.to_string(), "SO84");
}

#[test]
fn osgb_corners_of_the_documented_reference() {
    let grid: OSGB = "SO892437".parse().unwrap();
    assert_eq!(grid.sw(), (389_200, 243_700));
    assert_eq!(grid.nw(), (389_200, 243_800));
    assert_eq!(grid.ne(), (389_300, 243_800));
    assert_eq!(grid.se(), (389_300, 243_700));
    assert_eq!(grid.centre_half_metres(), (778_500, 487_500));
    let one_metre: OSGB = "SO8929143762".parse().unwrap();
    assert_eq!(one_metre.centre_half_metres(), (778_583, 487_525));
}

#[test]
fn osgb_parses_tetrads() {
    let grid: OSGB = "SN24R".parse().unwrap();
    assert_eq!(grid.sw(), (226_000, 242_000));
    assert_eq!(grid.precision(), Precision::_2Km);
    assert_eq!(grid.to_string(), "SN24R");
    assert_eq!(grid.ne(), (228_000, 244_000));
}

#[test]
fn osgb_rejects_unsupported_super_squares() {
    // Column 2, row 4 of the 500 km grid is C.
    assert_eq!(
        OSGB::new(0, 1_500_000, Precision::_1Km),
        Err(Error::ParseError(
            "C is not a supported 500km square.".to_string()
        ))
    );
    // J lies north-east of O and is not covered.
    assert_eq!(
        OSGB::new(500_000, 1_000_000, Precision::_1Km),
        Err(Error::ParseError(
            "J is not a supported 500km square.".to_string()
        ))
    );
    assert_eq!(
        "AA12".parse::<OSGB>(),
        Err(Error::ParseError(
            "A is not a supported 500km square.".to_string()
        ))
    );
}

#[test]
fn osgb_rejects_coordinates_beyond_the_grid() {
    assert_eq!(
        OSGB::new(1_500_000, 0, Precision::_1Km),
        Err(Error::OutOfBounds)
    );
    assert_eq!(
        OSGB::new(u32::MAX, u32::MAX, Precision::_1Km),
        Err(Error::OutOfBounds)
    );
}

#[test]
fn osgb_accepts_every_supported_super_square() {
    let cases = [
        (0, 0, "SV"),
        (999_999, 0, "TZ"),
        (0, 999_999, "NA"),
        (999_999, 999_999, "OE"),
        (0, 1_499_999, "HA"),
    ];
    for (e, n, text) in cases {
        let grid = OSGB::new(e, n, Precision::_100Km).unwrap();
        assert_eq!(grid.to_string(), text);
    }
}

#[test]
fn osgb_rejects_empty_text() {
    assert_eq!(
        " \t ".parse::<OSGB>(),
        Err(Error::ParseError("String can not be empty.".to_string()))
    );
    assert_eq!(
        "S".parse::<OSGB>(),
        Err(Error::ParseError("String can not be empty.".to_string()))
    );
}

#[test]
fn osgb_round_trips_at_every_precision() {
    let precisions = [
        Precision::_100Km,
        Precision::_10Km,
        Precision::_2Km,
        Precision::_1Km,
        Precision::_100M,
        Precision::_10M,
        Precision::_1M,
    ];
    for (e, n) in [(389_291, 243_762), (0, 0), (999_999, 999_999), (123_456, 1_234_567)] {
        for p in precisions {
            let grid = OSGB::new(e, n, p).unwrap();
            let text = grid.to_string();
            let back: OSGB = text.parse().unwrap();
            assert_eq!(back, grid);
            assert_eq!(back.to_string(), text);
        }
    }
}
