use gridish::{Error, Precision, OSI};

#[derive(Clone)]
pub struct TestGrid {
    pub eastings: u32,
    pub northings: u32,
    pub precision: Precision,
    pub input_string: String,
    pub output_string: String,
}

impl TestGrid {
    pub fn new(
        eastings: u32,
        northings: u32,
        precision: Precision,
        input_string: &str,
        output_string: &str,
    ) -> TestGrid {
        TestGrid {
            eastings,
            northings,
            precision,
            input_string: input_string.to_string(),
            output_string: output_string.to_string(),
        }
    }
}

pub fn osi_grids() -> Vec<TestGrid> {
    [
        TestGrid::new(300_000, 200_000, Precision::_100Km, "O", "O"),
        TestGrid::new(380_000, 240_000, Precision::_10Km, "O84", "O84"),
        TestGrid::new(389_000, 243_000, Precision::_1Km, "O8943", "O8943"),
        TestGrid::new(389_200, 243_700, Precision::_100M, "O892437", "O892437"),
        TestGrid::new(389_290, 243_760, Precision::_10M, "O89294376", "O89294376"),
        TestGrid::new(
            389_291,
            243_762,
            Precision::_1M,
            "O8929143762",
            "O8929143762",
        ),
        TestGrid::new(224_000, 168_000, Precision::_1Km, "s 24 68", "S2468"),
        TestGrid::new(365_000, 120_000, Precision::_1Km, "T6520", "T6520"),
        TestGrid::new(12_300, 245_600, Precision::_100M, " L123456 ", "L123456"),
        TestGrid::new(3_400, 443_400, Precision::_100M, "a 0344 34", "A034434"),
        TestGrid::new(
            315_904,
            234_671,
            Precision::_1M,
            "O1590434671",
            "O1590434671",
        ),
    ]
    .to_vec()
}

#[test]
fn osi_parses_valid_strings() {
    let data = osi_grids();

    for item in data {
        let grid: OSI = item.input_string.parse().unwrap();

        assert_eq!(item.eastings, grid.sw().0);
        assert_eq!(item.northings, grid.sw().1);
        assert_eq!(item.precision, grid.precision());
    }
}

#[test]
fn osi_rejects_invalid_strings() {
    assert_eq!(
        "L123".parse::<OSI>(),
        Err(Error::ParseError(
            "3 is not a valid number of digits. Supported values: 0, 2, 4, 6, 8, 10.".to_string()
        ))
    );

    assert_eq!(
        "123".parse::<OSI>(),
        Err(Error::ParseError(
            "1 is not a valid grid square.".to_string()
        ))
    );
}

#[test]
fn osi_prints_correct_strings() {
    let data = osi_grids();

    for item in data {
        let grid = OSI::new(item.eastings, item.northings, item.precision).unwrap();

        assert_eq!(item.output_string, grid.to_string());
    }
}

#[test]
fn osi_coordinates_are_correct() {
    let osi = OSI::new(0, 0, Precision::_100M).unwrap();
    let sw = osi.sw();
    let nw = osi.nw();
    let ne = osi.ne();
    let se = osi.se();

    assert_eq!(sw, (0, 0));
    assert_eq!(nw, (0, 100));
    assert_eq!(ne, (100, 100));
    assert_eq!(se, (100, 0));
    // The centre, (50, 50), in half metres.
    assert_eq!(osi.centre_half_metres(), (100, 100));
    assert_eq!(osi.perimeter(), vec![sw, nw, ne, se])
}

#[test]
fn osi_formats_without_a_super_square() {
    let grid = OSI::new(389_200, 243_700, Precision::_100M).unwrap();
    assert_eq!(grid.to_string(), "O892437");
}

#[test]
fn osi_recalculates_to_coarser_precision() {
    let grid: OSI = "O892437".parse().unwrap();
    let coarse = grid.recalculate(Precision::_10Km);
    assert_eq!(coarse.to_string(), "O84");
    assert_eq!(coarse.sw(), (380_000, 240_000));
    let same = coarse.recalculate(Precision::_10M);
    assert_eq!(same, coarse);
    let tetrad = grid.recalculate(Precision::_2Km);
    assert_eq!(tetrad.to_string(), "O84W");
    assert_eq!(tetrad.sw(), (388_000, 242_000));
}

#[test]
fn osi_rejects_out_of_bounds() {
    assert_eq!(OSI::new(500_000, 0, Precision::_1M), Err(Error::OutOfBounds));
    assert_eq!(OSI::new(0, 500_000, Precision::_1M), Err(Error::OutOfBounds));
    assert!(OSI::new(499_999, 499_999, Precision::_1M).is_ok());
}

#[test]
fn osi_parses_tetrads() {
    let grid: OSI = "n24r".parse().unwrap();
    assert_eq!(grid.sw(), (226_000, 242_000));
    assert_eq!(grid.precision(), Precision::_2Km);
    assert_eq!(grid.to_string(), "N24R");
}

#[test]
fn osi_rejects_empty_text() {
    assert_eq!(
        "".parse::<OSI>(),
        Err(Error::ParseError("String can not be empty.".to_string()))
    );
}

#[test]
fn osi_round_trips_at_every_precision() {
    let precisions = [
        Precision::_100Km,
        Precision::_10Km,
        Precision::_2Km,
        Precision::_1Km,
        Precision::_100M,
        Precision::_10M,
        Precision::_1M,
    ];
    for (e, n) in [(389_291, 243_762), (0, 0), (499_999, 499_999), (12_345, 456_789)] {
        for p in precisions {
            let grid = OSI::new(e, n, p).unwrap();
            let text = grid.to_string();
            let back: OSI = text.parse().unwrap();
            assert_eq!(back, grid);
            assert_eq!(back.to_string(), text);
        }
    }
}
