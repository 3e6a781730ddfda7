use crate::constants::{_100KM, _10KM, _2KM};
use crate::coordinates::metres::{
    lemma_aligned_add, lemma_span_divides, lemma_truncate_idempotent, padded_text, truncated,
    Metres,
};
use crate::decimal::{lemma_padded_reads_back, padded_decimal, pow10};
use crate::error::{Error, Fault};
use crate::grid::{
    coords_to_square, coords_to_tetrad, lemma_grid_letters_upper, lemma_letter_bijection,
    square_cell, square_letter, square_to_coords, tetrad_cell, tetrad_letter, tetrad_to_coords,
    unknown_square_message, GRID, TETRAD_GRID,
};
use crate::utils::{
    byte_len, digits, is_canonical, is_canonical_char, lemma_byte_len_ascii,
    lemma_byte_len_concat, lemma_canonical_trimmed, lemma_split_digits_bounds,
    lemma_split_halves, precision_of_half, split_digits,
};
use crate::Precision;
use vstd::arithmetic::div_mod::{lemma_fundamental_div_mod, lemma_mod_mod};
use vstd::prelude::*;

verus! {

/// The core of the British and Irish national grids: a point anywhere on a
/// 500 km grid at up to 1 m precision, made up of eastings, northings and
/// the precision. Eastings and northings are always truncated to the
/// precision.
#[derive(Debug, PartialEq, Eq, Clone, Copy)]
pub struct Point {
    eastings: Metres,
    northings: Metres,
    precision: Precision,
}

pub open spec fn is_ascii_letter(c: char) -> bool {
    ('A' <= c <= 'Z') || ('a' <= c <= 'z')
}

/// The message of the error for empty text.
pub open spec fn empty_message() -> Seq<char> {
    "String can not be empty."@
}

/// Text of a tetrad reference: four bytes, the last of them a letter.
pub open spec fn is_tetrad_text(s: Seq<char>) -> bool {
    s.len() > 0 && byte_len(s) == 4 && is_ascii_letter(s.last())
}

/// Parsed coordinates, checked against the domain of a super-square.
pub open spec fn within_domain(e: int, n: int, p: Precision) -> Result<(nat, nat, Precision), Fault> {
    if e >= 500_000 || n >= 500_000 {
        Err(Fault::OutOfBounds)
    } else {
        Ok((e as nat, n as nat, p))
    }
}

/// What parsing the text of a point gives: a square letter, then either a
/// digit string or two digits and a tetrad letter.
pub open spec fn parse_point(s: Seq<char>) -> Result<(nat, nat, Precision), Fault> {
    if s.len() == 0 {
        Err(Fault::Parse(empty_message()))
    } else {
        match square_cell(s[0]) {
            None => Err(Fault::Parse(unknown_square_message(s[0]))),
            Some((column, row)) => {
                let base_e = column * 100_000;
                let base_n = row * 100_000;
                if is_tetrad_text(s) {
                    match tetrad_cell(s.last()) {
                        None => Err(Fault::Parse(unknown_square_message(s.last()))),
                        Some((tc, tr)) => match split_digits(s.subrange(1, s.len() - 1)) {
                            Err(f) => Err(f),
                            Ok((de, dn, _)) => within_domain(
                                base_e + tc * 2_000 + de,
                                base_n + tr * 2_000 + dn,
                                Precision::_2Km,
                            ),
                        },
                    }
                } else {
                    match split_digits(s.drop_first()) {
                        Err(f) => Err(f),
                        Ok((de, dn, p)) => within_domain(base_e + de, base_n + dn, p),
                    }
                }
            },
        }
    }
}

/// The text of the point at `(e, n)` with precision `p`.
pub open spec fn point_text(e: nat, n: nat, p: Precision) -> Seq<char> {
    let letter = square_letter((e / 100_000) as usize, (n / 100_000) as usize).unwrap();
    if p == Precision::_2Km {
        let tetrad = tetrad_letter(
            ((e % 10_000) / 2_000) as usize,
            ((n % 10_000) / 2_000) as usize,
        ).unwrap();
        seq![letter] + padded_text(e, Precision::_10Km) + padded_text(n, Precision::_10Km) + seq![
            tetrad,
        ]
    } else {
        seq![letter] + padded_text(e, p) + padded_text(n, p)
    }
}

/// The corners of the cell with south-west corner `(e, n)` at precision `p`,
/// in the order south-west, north-west, north-east, south-east.
pub open spec fn cell_corners(e: nat, n: nat, p: Precision) -> Seq<(nat, nat)> {
    let m = p.span() as nat;
    seq![(e, n), (e, (n + m) as nat), ((e + m) as nat, (n + m) as nat), ((e + m) as nat, n)]
}

/// The centre of that cell, in half metres so that it stays whole.
pub open spec fn cell_centre_halves(e: nat, n: nat, p: Precision) -> (nat, nat) {
    ((2 * e + p.span()) as nat, (2 * n + p.span()) as nat)
}

/// The outcome of a parse, with the point replaced by its view.
pub open spec fn point_outcome(r: Result<Point, Error>) -> Result<(nat, nat, Precision), Fault> {
    match r {
        Ok(p) => Ok(p@),
        Err(e) => Err(e@),
    }
}

impl View for Point {
    type V = (nat, nat, Precision);

    closed spec fn view(&self) -> (nat, nat, Precision) {
        (self.eastings.value(), self.northings.value(), self.precision)
    }
}

impl Point {
    #[verifier::type_invariant]
    spec fn aligned(self) -> bool {
        &&& self.eastings.value() < 500_000
        &&& self.northings.value() < 500_000
        &&& self.eastings.value() % (self.precision.span() as nat) == 0
        &&& self.northings.value() % (self.precision.span() as nat) == 0
    }

    /// A point at the given coordinates, truncated to the given precision.
    pub fn new(eastings: Metres, northings: Metres, precision: Precision) -> (r: Point)
        ensures
            r@ == (
                truncated(eastings.value(), precision),
                truncated(northings.value(), precision),
                precision,
            ),
    {
        let e = eastings.precision(precision);
        let n = northings.precision(precision);
        proof {
            lemma_truncate_idempotent(eastings.value(), precision);
            lemma_truncate_idempotent(northings.value(), precision);
        }
        Point { eastings: e, northings: n, precision }
    }

    /// The point's eastings within its super-square.
    pub fn eastings(&self) -> (r: Metres)
        ensures
            r.value() == self@.0,
            r.value() < 500_000,
            r.value() % (self@.2.span() as nat) == 0,
    {
        proof {
            use_type_invariant(self);
        }
        self.eastings
    }

    /// The point's northings within its super-square.
    pub fn northings(&self) -> (r: Metres)
        ensures
            r.value() == self@.1,
            r.value() < 500_000,
            r.value() % (self@.2.span() as nat) == 0,
    {
        proof {
            use_type_invariant(self);
        }
        self.northings
    }

    /// The point's precision.
    pub fn precision(&self) -> (r: Precision)
        ensures
            r == self@.2,
    {
        self.precision
    }
}

fn is_letter(c: char) -> (r: bool)
    ensures
        r == is_ascii_letter(c),
{
    ('A' <= c && c <= 'Z') || ('a' <= c && c <= 'z')
}

/// The error for empty text.
pub fn empty_error() -> (e: Error)
    ensures
        e@ == Fault::Parse(empty_message()),
{
    Error::ParseError(String::from_str("String can not be empty."))
}

/// The cell of a letter lies within the grid.
proof fn lemma_cell_in_grid(grid: Seq<char>, c: char)
    requires
        grid.len() == 25,
        crate::grid::cell_in(grid, c) is Some,
    ensures
        crate::grid::cell_in(grid, c).unwrap().0 < 5,
        crate::grid::cell_in(grid, c).unwrap().1 < 5,
{
    let i = grid.index_of(c);
    assert(0 <= i < 25);
}

/// In text of four bytes that starts with a square letter and ends in an
/// ASCII letter, the part between takes two bytes.
proof fn lemma_tetrad_digits_len(s: Seq<char>, i: int)
    requires
        s.len() >= 2,
        byte_len(s) == 4,
        0 <= i < 25,
        s[0] == GRID@[i],
        is_ascii_letter(s.last()),
    ensures
        byte_len(s.subrange(1, s.len() - 1)) == 2,
{
    let mid = s.subrange(1, s.len() - 1);
    assert(s =~= seq![s[0]] + mid + seq![s.last()]);
    lemma_byte_len_concat(seq![s[0]] + mid, seq![s.last()]);
    lemma_byte_len_concat(seq![s[0]], mid);
    lemma_byte_len_ascii(s[0]);
    lemma_byte_len_ascii(s.last());
}

impl Point {
    /// Parses the text of a point: a square letter followed by an even
    /// number of digits, or by two digits and a tetrad letter.
    pub fn parse(s: &str) -> (r: Result<Point, Error>)
        ensures
            point_outcome(r) == parse_point(s@),
    {
        let len = s.unicode_len();
        if len == 0 {
            return Err(empty_error());
        }
        let c = s.get_char(0);
        let (column, row) = match square_to_coords(&c) {
            Ok(cell) => cell,
            Err(e) => return Err(e),
        };
        proof {
            crate::grid::lemma_grids_distinct();
            lemma_cell_in_grid(GRID@, c);
        }
        let base_e = column as u32 * _100KM;
        let base_n = row as u32 * _100KM;
        if s.as_bytes().len() == 4 {
            let last = s.get_char(len - 1);
            if is_letter(last) {
                let (tc, tr) = match tetrad_to_coords(&last) {
                    Ok(cell) => cell,
                    Err(e) => return Err(e),
                };
                proof {
                    lemma_cell_in_grid(TETRAD_GRID@, last);
                }
                let rest = s.substring_char(1, len - 1);
                let (east, north) = match digits(rest) {
                    Ok((e, n, _)) => (e, n),
                    Err(e) => return Err(e),
                };
                proof {
                    lemma_split_digits_bounds(rest@);
                    lemma_tetrad_digits_len(s@, GRID@.index_of(c));
                    lemma_span_divides(column as int, Precision::_2Km);
                    vstd::arithmetic::div_mod::lemma_mod_multiples_basic(tc as int, 2_000);
                    vstd::arithmetic::div_mod::lemma_mod_multiples_basic(tr as int, 2_000);
                    lemma_aligned_add(column * 100_000, tc * 2_000, 2_000);
                    lemma_aligned_add(column * 100_000 + tc * 2_000, east as int, 2_000);
                    lemma_span_divides(row as int, Precision::_2Km);
                    lemma_aligned_add(row * 100_000, tr * 2_000, 2_000);
                    lemma_aligned_add(row * 100_000 + tr * 2_000, north as int, 2_000);
                }
                return Point::checked(
                    base_e + tc as u32 * _2KM + east,
                    base_n + tr as u32 * _2KM + north,
                    Precision::_2Km,
                );
            }
        }
        let rest = s.substring_char(1, len);
        assert(rest@ == s@.drop_first());
        let (east, north, precision) = match digits(rest) {
            Ok(d) => d,
            Err(e) => return Err(e),
        };
        proof {
            lemma_split_digits_bounds(rest@);
            let m = precision.span() as int;
            lemma_span_divides(column as int, precision);
            lemma_span_divides(row as int, precision);
            lemma_aligned_add(column * 100_000, east as int, m);
            lemma_aligned_add(row * 100_000, north as int, m);
        }
        Point::checked(base_e + east, base_n + north, precision)
    }

    /// A point at parsed coordinates, which are multiples of the span of
    /// the precision; `OutOfBounds` where one lies outside the domain.
    fn checked(e: u32, n: u32, precision: Precision) -> (r: Result<Point, Error>)
        requires
            (e as nat) % (precision.span() as nat) == 0,
            (n as nat) % (precision.span() as nat) == 0,
        ensures
            point_outcome(r) == within_domain(e as int, n as int, precision),
    {
        let eastings = match Metres::new(e) {
            Ok(m) => m,
            Err(err) => return Err(err),
        };
        let northings = match Metres::new(n) {
            Ok(m) => m,
            Err(err) => return Err(err),
        };
        Ok(Point { eastings, northings, precision })
    }

    /// The text of the point: its square letter and its digits, or for a
    /// tetrad its square letter, two digits and the tetrad letter.
    pub fn to_string(&self) -> (r: String)
        ensures
            r@ == point_text(self@.0, self@.1, self@.2),
    {
        let eastings = self.eastings.inner();
        let northings = self.northings.inner();
        let column = (eastings / _100KM) as usize;
        let row = (northings / _100KM) as usize;
        let letter = coords_to_square(column, row).unwrap();
        let mut out = String::new();
        out.push(letter);
        match self.precision {
            Precision::_2Km => {
                let tetrad_column = ((eastings % _10KM) / _2KM) as usize;
                let tetrad_row = ((northings % _10KM) / _2KM) as usize;
                let tetrad = coords_to_tetrad(tetrad_column, tetrad_row).unwrap();
                out.append(self.eastings.padded(Precision::_10Km).as_str());
                out.append(self.northings.padded(Precision::_10Km).as_str());
                out.push(tetrad);
            },
            _ => {
                out.append(self.eastings.padded(self.precision).as_str());
                out.append(self.northings.padded(self.precision).as_str());
            },
        }
        out
    }
}

impl std::str::FromStr for Point {
    type Err = Error;

    fn from_str(s: &str) -> Result<Self, Self::Err> {
        Point::parse(s)
    }
}

/// The precisions written with digits only: their digit count, and how the
/// span and the digits per coordinate make up 100 km.
proof fn lemma_digit_width(p: Precision)
    requires
        p != Precision::_2Km,
        p != Precision::_100Km,
    ensures
        1 <= p.width() <= 5,
        p.digit_count() == 2 * p.width(),
        (p.span() as nat) * pow10(p.width()) == 100_000,
        precision_of_half(p.width()) == p,
{
    assert(pow10(0) == 1);
    assert(pow10(1) == 10);
    assert(pow10(2) == 100);
    assert(pow10(3) == 1_000);
    assert(pow10(4) == 10_000);
    assert(pow10(5) == 100_000);
    match p {
        Precision::_10Km => assert(p.width() == 1),
        Precision::_1Km => assert(p.width() == 2),
        Precision::_100M => assert(p.width() == 3),
        Precision::_10M => assert(p.width() == 4),
        Precision::_1M => assert(p.width() == 5),
        _ => {},
    }
}

/// The digits of an aligned coordinate within its 100 km square fit their
/// width and give back its offset in that square.
proof fn lemma_offset_digits(v: nat, p: Precision)
    requires
        p != Precision::_2Km,
        p != Precision::_100Km,
        v % (p.span() as nat) == 0,
    ensures
        (v % 100_000) / (p.span() as nat) < pow10(p.width()),
        ((v % 100_000) / (p.span() as nat)) * p.span() == v % 100_000,
{
    lemma_digit_width(p);
    let m = p.span() as int;
    let k = pow10(p.width()) as int;
    let r = (v % 100_000) as int;
    lemma_mod_mod(v as int, m, k);
    lemma_fundamental_div_mod(r, m);
    let x = r / m;
    assert(r == m * x);
    assert(x < k) by (nonlinear_arith)
        requires
            r == m * x,
            r < 100_000,
            m * k == 100_000,
            m > 0,
    ;
}

/// An offset aligned to 2 km splits into a 10 km digit and a tetrad column.
proof fn lemma_tetrad_digits(v: nat)
    requires
        v % 2_000 == 0,
    ensures
        (v % 100_000) / 10_000 < 10,
        (v % 10_000) / 2_000 < 5,
        ((v % 100_000) / 10_000) * 10_000 + ((v % 10_000) / 2_000) * 2_000 == v % 100_000,
{
    let r = (v % 100_000) as int;
    lemma_mod_mod(v as int, 10_000, 10);
    lemma_mod_mod(v as int, 2_000, 5);
    lemma_fundamental_div_mod(r, 10_000);
    lemma_fundamental_div_mod((v % 10_000) as int, 2_000);
}

/// Round trip of a tetrad point.
proof fn lemma_round_trip_tetrad(e: nat, n: nat)
    requires
        e < 500_000,
        n < 500_000,
        e % 2_000 == 0,
        n % 2_000 == 0,
    ensures
        is_canonical(point_text(e, n, Precision::_2Km)),
        parse_point(point_text(e, n, Precision::_2Km)) == Ok::<(nat, nat, Precision), Fault>(
            (e, n, Precision::_2Km),
        ),
{
    let column = e / 100_000;
    let row = n / 100_000;
    lemma_letter_bijection(column as usize, row as usize);
    lemma_grid_letters_upper();
    let letter = GRID@[(column + 5 * row) as int];
    let t = point_text(e, n, Precision::_2Km);
    lemma_fundamental_div_mod(e as int, 100_000);
    lemma_fundamental_div_mod(n as int, 100_000);
    lemma_tetrad_digits(e);
    lemma_tetrad_digits(n);
    let xe = (e % 100_000) / 10_000;
    let xn = (n % 100_000) / 10_000;
    let tc = (e % 10_000) / 2_000;
    let tr = (n % 10_000) / 2_000;
    lemma_letter_bijection(tc as usize, tr as usize);
    let tl = TETRAD_GRID@[(tc + 5 * tr) as int];
    assert(pow10(0) == 1);
    assert(pow10(1) == 10);
    lemma_padded_reads_back(xe, 1);
    lemma_padded_reads_back(xn, 1);
    let pe = padded_decimal(xe, 1);
    let pn = padded_decimal(xn, 1);
    assert(padded_text(e, Precision::_10Km) == pe);
    assert(padded_text(n, Precision::_10Km) == pn);
    assert(t == seq![letter] + pe + pn + seq![tl]);
    assert(is_canonical(t)) by {
        assert forall|i: int| 0 <= i < t.len() implies is_canonical_char(#[trigger] t[i]) by {
            if i == 1 {
                assert(t[i] == pe[0]);
            } else if i == 2 {
                assert(t[i] == pn[0]);
            }
        }
    }
    lemma_canonical_trimmed(t);
    assert(t.subrange(1, 3) =~= pe + pn);
    lemma_split_halves(pe, pn);
    assert(precision_of_half(1) == Precision::_10Km);
    assert(is_tetrad_text(t));
    assert(square_cell(t[0]) == Some((column as usize, row as usize)));
    assert(tetrad_cell(t.last()) == Some((tc as usize, tr as usize)));
    assert(split_digits(t.subrange(1, t.len() - 1)) == Ok::<(nat, nat, Precision), Fault>(
        (xe * 10_000, xn * 10_000, Precision::_10Km),
    ));
}

/// Round trip of a point at 100 km: its text is its square letter alone.
proof fn lemma_round_trip_square(e: nat, n: nat)
    requires
        e < 500_000,
        n < 500_000,
        e % 100_000 == 0,
        n % 100_000 == 0,
    ensures
        is_canonical(point_text(e, n, Precision::_100Km)),
        parse_point(point_text(e, n, Precision::_100Km)) == Ok::<(nat, nat, Precision), Fault>(
            (e, n, Precision::_100Km),
        ),
{
    let column = e / 100_000;
    let row = n / 100_000;
    lemma_letter_bijection(column as usize, row as usize);
    lemma_grid_letters_upper();
    let letter = GRID@[(column + 5 * row) as int];
    let t = point_text(e, n, Precision::_100Km);
    lemma_fundamental_div_mod(e as int, 100_000);
    lemma_fundamental_div_mod(n as int, 100_000);
    assert(t =~= seq![letter]);
    assert(is_canonical(t));
    lemma_canonical_trimmed(t);
    assert(t.drop_first() =~= Seq::<char>::empty());
    lemma_canonical_trimmed(Seq::<char>::empty());
    assert(square_cell(t[0]) == Some((column as usize, row as usize)));
}

/// Round trip of a point written with digits only.
proof fn lemma_round_trip_digits(e: nat, n: nat, p: Precision)
    requires
        e < 500_000,
        n < 500_000,
        e % (p.span() as nat) == 0,
        n % (p.span() as nat) == 0,
        p != Precision::_2Km,
        p != Precision::_100Km,
    ensures
        is_canonical(point_text(e, n, p)),
        parse_point(point_text(e, n, p)) == Ok::<(nat, nat, Precision), Fault>((e, n, p)),
{
    let column = e / 100_000;
    let row = n / 100_000;
    lemma_letter_bijection(column as usize, row as usize);
    lemma_grid_letters_upper();
    let letter = GRID@[(column + 5 * row) as int];
    let t = point_text(e, n, p);
    lemma_fundamental_div_mod(e as int, 100_000);
    lemma_fundamental_div_mod(n as int, 100_000);
    lemma_digit_width(p);
    lemma_offset_digits(e, p);
    lemma_offset_digits(n, p);
    let w = p.width();
    let m = p.span() as nat;
    let xe = (e % 100_000) / m;
    let xn = (n % 100_000) / m;
    lemma_padded_reads_back(xe, w);
    lemma_padded_reads_back(xn, w);
    let pe = padded_decimal(xe, w);
    let pn = padded_decimal(xn, w);
    assert(t == seq![letter] + pe + pn);
    assert(is_canonical(t)) by {
        assert forall|i: int| 0 <= i < t.len() implies is_canonical_char(#[trigger] t[i]) by {
            if 1 <= i < 1 + w {
                assert(t[i] == pe[i - 1]);
            } else if 1 + w <= i {
                assert(t[i] == pn[i - 1 - w]);
            }
        }
    }
    lemma_canonical_trimmed(t);
    assert(t.drop_first() =~= pe + pn);
    lemma_split_halves(pe, pn);
    assert(!is_tetrad_text(t));
    assert(square_cell(t[0]) == Some((column as usize, row as usize)));
}

/// Parsing the text of an aligned point in the domain gives the point
/// back; the text is canonical.
pub proof fn lemma_point_round_trip(e: nat, n: nat, p: Precision)
    requires
        e < 500_000,
        n < 500_000,
        e % (p.span() as nat) == 0,
        n % (p.span() as nat) == 0,
    ensures
        is_canonical(point_text(e, n, p)),
        parse_point(point_text(e, n, p)) == Ok::<(nat, nat, Precision), Fault>((e, n, p)),
{
    if p == Precision::_2Km {
        lemma_round_trip_tetrad(e, n);
    } else if p == Precision::_100Km {
        lemma_round_trip_square(e, n);
    } else {
        lemma_round_trip_digits(e, n, p);
    }
}

} // verus!
