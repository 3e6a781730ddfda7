use crate::constants::_500KM;
use crate::coordinates::metres::{lemma_truncate_idempotent, truncated, Metres};
use crate::coordinates::point::{
    cell_centre_halves, cell_corners, empty_error, empty_message, lemma_point_round_trip,
    parse_point, point_text, Point,
};
use crate::error::{Error, Fault};
use crate::grid::{
    coords_to_square, lemma_grid_letters_upper, lemma_letter_bijection, letter_outcome,
    square_cell, square_letter, square_to_coords, unknown_square_message, GRID,
};
use crate::osi::recalculated;
use crate::utils::{
    is_canonical, is_canonical_char, lemma_canonical_trimmed, trim_string, trimmed,
};
use crate::Precision;
use vstd::arithmetic::div_mod::{
    lemma_div_multiples_vanish_fancy, lemma_fundamental_div_mod, lemma_mod_mod,
    lemma_mod_multiples_vanish, lemma_small_mod,
};
use vstd::prelude::*;

verus! {

/// The 500 km grid's offset from the true origin, eastwards.
pub const OFFSET_EAST: u32 = 1_000_000;

/// The 500 km grid's offset from the true origin, northwards.
pub const OFFSET_NORTH: u32 = 500_000;

/// A valid British national grid reference: a 500 km super-square, one of
/// S, T, N, O and H, and a point within it.
///
/// It can be built by parsing a string or from eastings and northings, and
/// converts between the two, as well as re-mapping to a new precision.
#[derive(Debug, PartialEq, Eq, Clone, Copy)]
pub struct OSGB {
    square_500k_east: u32,
    square_500k_north: u32,
    point: Point,
}

/// The super-squares that the British grid covers.
pub open spec fn is_supported_square(c: char) -> bool {
    c == 'S' || c == 'T' || c == 'N' || c == 'O' || c == 'H'
}

/// The message of the error for a super-square outside the grid.
pub open spec fn unsupported_message(c: char) -> Seq<char> {
    seq![c] + " is not a supported 500km square."@
}

/// Column of the super-square that holds eastings `e`.
pub open spec fn super_column(e: nat) -> nat {
    (e + 1_000_000) / 500_000
}

/// Row of the super-square that holds northings `n`.
pub open spec fn super_row(n: nat) -> nat {
    (n + 500_000) / 500_000
}

/// The reference built from eastings, northings and a precision: the
/// coordinates truncated to the precision, where their super-square exists
/// and is supported.
pub open spec fn construct_osgb(e: nat, n: nat, p: Precision) -> Result<
    (nat, nat, Precision),
    Fault,
> {
    match letter_outcome(GRID@, super_column(e) as usize, super_row(n) as usize) {
        Err(f) => Err(f),
        Ok(c) => if !is_supported_square(c) {
            Err(Fault::Parse(unsupported_message(c)))
        } else {
            Ok((truncated(e, p), truncated(n, p), p))
        },
    }
}

/// What parsing text as a British reference gives: a supported super-square
/// letter, then the text of a point within it.
pub open spec fn parse_osgb(s: Seq<char>) -> Result<(nat, nat, Precision), Fault> {
    let t = trimmed(s);
    if t.len() == 0 {
        Err(Fault::Parse(empty_message()))
    } else {
        match square_cell(t[0]) {
            None => Err(Fault::Parse(unknown_square_message(t[0]))),
            Some((column, row)) => if !is_supported_square(t[0]) {
                Err(Fault::Parse(unsupported_message(t[0])))
            } else {
                match parse_point(t.drop_first()) {
                    Err(f) => Err(f),
                    Ok((e, n, p)) => Ok(
                        (
                            (column * 500_000 + e - 1_000_000) as nat,
                            (row * 500_000 + n - 500_000) as nat,
                            p,
                        ),
                    ),
                }
            },
        }
    }
}

/// The text of the British reference with view `v`.
pub open spec fn osgb_text(v: (nat, nat, Precision)) -> Seq<char> {
    seq![square_letter(super_column(v.0) as usize, super_row(v.1) as usize).unwrap()] + point_text(
        v.0 % 500_000,
        v.1 % 500_000,
        v.2,
    )
}

pub open spec fn osgb_outcome(r: Result<OSGB, Error>) -> Result<(nat, nat, Precision), Fault> {
    match r {
        Ok(g) => Ok(g@),
        Err(e) => Err(e@),
    }
}

/// The supported super-squares are S, T, N, O and H, at columns 2 and 3 of
/// rows 1 to 3, but for J at (3, 3).
pub proof fn lemma_supported_cells(column: usize, row: usize)
    requires
        column < 5,
        row < 5,
    ensures
        is_supported_square(square_letter(column, row).unwrap()) <==> {
            &&& 2 <= column <= 3
            &&& 1 <= row <= 3
            &&& !(column == 3 && row == 3)
        },
{
    let i = column + 5 * row;
    assert(0 <= i < 25);
    assert(GRID@[i] == GRID[i as int]);
}

/// Splitting coordinates into a super-square and an offset within it, then
/// truncating the offset, truncates the coordinates.
proof fn lemma_super_split(v: nat, k: nat, p: Precision)
    requires
        k == 1 || k == 2,
    ensures
        ((v + k * 500_000) / 500_000) * 500_000 + truncated(v % 500_000, p) - k * 500_000
            == truncated(v, p),
        (v + k * 500_000) / 500_000 >= k,
{
    let m = p.span() as int;
    let w = (v + k * 500_000) as int;
    lemma_fundamental_div_mod(w, 500_000);
    lemma_mod_multiples_vanish(k as int, v as int, 500_000);
    lemma_fundamental_div_mod(v as int, 500_000);
    crate::coordinates::metres::lemma_span_divides(1, p);
    let q5: int = match p {
        Precision::_100Km => 5,
        Precision::_10Km => 50,
        Precision::_2Km => 250,
        Precision::_1Km => 500,
        Precision::_100M => 5_000,
        Precision::_10M => 50_000,
        Precision::_1M => 500_000,
    };
    assert(m * q5 == 500_000);
    lemma_mod_mod(v as int, m, q5);
    let vi = v as int;
    assert(w == 500_000 * k + vi);
    assert(w % 500_000 == vi % 500_000);
    assert((w / 500_000) * 500_000 == w - vi % 500_000);
    assert((vi % 500_000) % m == vi % m);
    vstd::arithmetic::div_mod::lemma_mod_decreases(v % 500_000, m as nat);
    vstd::arithmetic::div_mod::lemma_mod_decreases(v, m as nat);
    assert(truncated(v % 500_000, p) == vi % 500_000 - vi % m);
    assert(truncated(v, p) == vi - vi % m);
}

impl View for OSGB {
    type V = (nat, nat, Precision);

    closed spec fn view(&self) -> (nat, nat, Precision) {
        (
            (self.square_500k_east * 500_000 + self.point@.0 - 1_000_000) as nat,
            (self.square_500k_north * 500_000 + self.point@.1 - 500_000) as nat,
            self.point@.2,
        )
    }
}

fn is_supported(c: char) -> (r: bool)
    ensures
        r == is_supported_square(c),
{
    c == 'S' || c == 'T' || c == 'N' || c == 'O' || c == 'H'
}

fn unsupported_error(c: char) -> (e: Error)
    ensures
        e@ == Fault::Parse(unsupported_message(c)),
{
    let mut message = String::new();
    message.push(c);
    message.append(" is not a supported 500km square.");
    Error::ParseError(message)
}

impl OSGB {
    #[verifier::type_invariant]
    spec fn in_grid(self) -> bool {
        &&& self.square_500k_east < 5
        &&& self.square_500k_north < 5
        &&& is_supported_square(
            square_letter(self.square_500k_east as usize, self.square_500k_north as usize).unwrap(),
        )
    }

    /// Creates a new grid reference from the given coordinates and
    /// precision.
    ///
    /// Fails with `OutOfBounds` where the coordinates lie beyond the 5 x 5
    /// super-squares, and with a parse error naming the super-square where it
    /// is not one of S, T, N, O and H.
    pub fn new(eastings: u32, northings: u32, precision: Precision) -> (r: Result<OSGB, Error>)
        ensures
            osgb_outcome(r) == construct_osgb(eastings as nat, northings as nat, precision),
    {
        let column = (eastings as u64 + OFFSET_EAST as u64) / (_500KM as u64);
        let row = (northings as u64 + OFFSET_NORTH as u64) / (_500KM as u64);
        let square = match coords_to_square(column as usize, row as usize) {
            Ok(c) => c,
            Err(e) => return Err(e),
        };
        if !is_supported(square) {
            return Err(unsupported_error(square));
        }
        let e = match Metres::new(eastings % _500KM) {
            Ok(m) => m,
            Err(err) => return Err(err),
        };
        let n = match Metres::new(northings % _500KM) {
            Ok(m) => m,
            Err(err) => return Err(err),
        };
        proof {
            lemma_super_split(eastings as nat, 2, precision);
            lemma_super_split(northings as nat, 1, precision);
        }
        Ok(
            OSGB {
                square_500k_east: column as u32,
                square_500k_north: row as u32,
                point: Point::new(e, n, precision),
            },
        )
    }

    /// Recalculates the grid reference to a new precision, keeping its
    /// super-square. A precision finer than the reference's own leaves it
    /// unchanged.
    pub fn recalculate(&self, precision: Precision) -> (r: OSGB)
        ensures
            r@ == recalculated(self@, precision),
    {
        proof {
            use_type_invariant(self);
            lemma_supported_cells(self.square_500k_east as usize, self.square_500k_north as usize);
        }
        if precision.metres() < self.point.precision().metres() {
            *self
        } else {
            let point = Point::new(self.point.eastings(), self.point.northings(), precision);
            proof {
                lemma_shift_truncated((self.square_500k_east - 2) as nat, self.point@.0, precision);
                lemma_shift_truncated((self.square_500k_north - 1) as nat, self.point@.1, precision);
            }
            OSGB {
                square_500k_east: self.square_500k_east,
                square_500k_north: self.square_500k_north,
                point,
            }
        }
    }

    /// The eastings of the reference, from the true origin.
    fn eastings(&self) -> (r: u32)
        ensures
            r == self@.0,
            r < 1_000_000,
    {
        proof {
            use_type_invariant(self);
            lemma_supported_cells(self.square_500k_east as usize, self.square_500k_north as usize);
        }
        let east_500k = self.square_500k_east * _500KM - OFFSET_EAST;
        east_500k + self.point.eastings().inner()
    }

    /// The northings of the reference, from the true origin.
    fn northings(&self) -> (r: u32)
        ensures
            r == self@.1,
            r < 1_500_000,
    {
        proof {
            use_type_invariant(self);
            lemma_supported_cells(self.square_500k_east as usize, self.square_500k_north as usize);
        }
        let north_500k = self.square_500k_north * _500KM - OFFSET_NORTH;
        north_500k + self.point.northings().inner()
    }

    /// The south-west corner of the reference's cell: its origin.
    pub fn sw(&self) -> (r: (u32, u32))
        ensures
            (r.0 as nat, r.1 as nat) == cell_corners(self@.0, self@.1, self@.2)[0],
    {
        (self.eastings(), self.northings())
    }

    /// The north-west corner of the reference's cell.
    pub fn nw(&self) -> (r: (u32, u32))
        ensures
            (r.0 as nat, r.1 as nat) == cell_corners(self@.0, self@.1, self@.2)[1],
    {
        let m = self.point.precision().metres();
        (self.eastings(), self.northings() + m)
    }

    /// The north-east corner of the reference's cell.
    pub fn ne(&self) -> (r: (u32, u32))
        ensures
            (r.0 as nat, r.1 as nat) == cell_corners(self@.0, self@.1, self@.2)[2],
    {
        let m = self.point.precision().metres();
        (self.eastings() + m, self.northings() + m)
    }

    /// The south-east corner of the reference's cell.
    pub fn se(&self) -> (r: (u32, u32))
        ensures
            (r.0 as nat, r.1 as nat) == cell_corners(self@.0, self@.1, self@.2)[3],
    {
        let m = self.point.precision().metres();
        (self.eastings() + m, self.northings())
    }

    /// The centre of the reference's cell, in half metres: twice its
    /// eastings and northings.
    pub fn centre_half_metres(&self) -> (r: (u32, u32))
        ensures
            (r.0 as nat, r.1 as nat) == cell_centre_halves(self@.0, self@.1, self@.2),
    {
        let m = self.point.precision().metres();
        (2 * self.eastings() + m, 2 * self.northings() + m)
    }

    /// The four corners of the reference's cell: south-west, north-west,
    /// north-east, south-east, with no closing repeat.
    pub fn perimeter(&self) -> (r: Vec<(u32, u32)>)
        ensures
            r@.len() == 4,
            forall|i: int|
                0 <= i < 4 ==> (#[trigger] r@[i].0 as nat, r@[i].1 as nat) == cell_corners(
                    self@.0,
                    self@.1,
                    self@.2,
                )[i],
    {
        vec![self.sw(), self.nw(), self.ne(), self.se()]
    }

    /// Returns the reference's precision.
    pub fn precision(&self) -> (r: Precision)
        ensures
            r == self@.2,
    {
        self.point.precision()
    }

    /// Parses a grid reference, ignoring ASCII whitespace and case: a
    /// supported super-square letter, then the text of a point.
    pub fn parse(s: &str) -> (r: Result<OSGB, Error>)
        ensures
            osgb_outcome(r) == parse_osgb(s@),
    {
        let string = trim_string(s);
        let text = string.as_str();
        let len = text.unicode_len();
        if len == 0 {
            return Err(empty_error());
        }
        let c = text.get_char(0);
        let (east, north) = match square_to_coords(&c) {
            Ok(cell) => cell,
            Err(e) => return Err(e),
        };
        if !is_supported(c) {
            return Err(unsupported_error(c));
        }
        proof {
            crate::grid::lemma_grids_distinct();
            crate::grid::lemma_cell_letter(GRID@, c);
            let i = GRID@.index_of(c);
            assert(0 <= i < 25);
            lemma_supported_cells(east, north);
        }
        let rest = text.substring_char(1, len);
        assert(rest@ == text@.drop_first());
        let point = match Point::parse(rest) {
            Ok(p) => p,
            Err(e) => return Err(e),
        };
        Ok(OSGB { square_500k_east: east as u32, square_500k_north: north as u32, point })
    }

    /// The canonical text of the reference: its super-square letter, then
    /// the text of its point.
    pub fn to_string(&self) -> (r: String)
        ensures
            r@ == osgb_text(self@),
    {
        proof {
            use_type_invariant(self);
            lemma_supported_cells(self.square_500k_east as usize, self.square_500k_north as usize);
        }
        let e = self.point.eastings();
        let n = self.point.northings();
        proof {
            lemma_super_parts(self.square_500k_east as nat, e.value(), 2);
            lemma_super_parts(self.square_500k_north as nat, n.value(), 1);
        }
        let square = coords_to_square(
            self.square_500k_east as usize,
            self.square_500k_north as usize,
        ).unwrap();
        let mut out = String::new();
        out.push(square);
        out.append(self.point.to_string().as_str());
        out
    }
}

/// Adding whole super-squares to an offset adds them to its truncation.
proof fn lemma_shift_truncated(j: nat, v: nat, p: Precision)
    ensures
        truncated(j * 500_000 + v, p) == j * 500_000 + truncated(v, p),
{
    let m = p.span() as int;
    crate::coordinates::metres::lemma_span_divides(j as int, p);
    lemma_fundamental_div_mod((j * 500_000) as int, m);
    let a = (j * 500_000) as int / m;
    assert(j * 500_000 == m * a);
    lemma_mod_multiples_vanish(a, v as int, m);
    vstd::arithmetic::div_mod::lemma_mod_decreases(v, m as nat);
    vstd::arithmetic::div_mod::lemma_mod_decreases(j * 500_000 + v, m as nat);
}

/// A super-square and an offset within it are read back from the
/// coordinates that they make.
proof fn lemma_super_parts(column: nat, v: nat, k: nat)
    requires
        k <= column,
        v < 500_000,
    ensures
        ((column * 500_000 + v - k * 500_000) + k * 500_000) / 500_000 == column,
        ((column * 500_000 + v - k * 500_000) as nat) % 500_000 == v,
{
    lemma_div_multiples_vanish_fancy(column as int, v as int, 500_000);
    lemma_mod_multiples_vanish((column - k) as int, v as int, 500_000);
    lemma_small_mod(v, 500_000);
    assert((column * 500_000 + v - k * 500_000) == 500_000 * (column - k) + v);
}

impl std::str::FromStr for OSGB {
    type Err = Error;

    fn from_str(s: &str) -> Result<Self, Self::Err> {
        OSGB::parse(s)
    }
}

/// Truncation keeps coordinates within their super-square, and truncates
/// their offset within it.
proof fn lemma_super_of_truncated(v: nat, k: nat, p: Precision)
    requires
        k == 1 || k == 2,
    ensures
        (truncated(v, p) + k * 500_000) / 500_000 == (v + k * 500_000) / 500_000,
        truncated(v, p) % 500_000 == truncated(v % 500_000, p),
        truncated(v % 500_000, p) < 500_000,
        truncated(v % 500_000, p) % (p.span() as nat) == 0,
{
    let j = v / 500_000;
    let r = v % 500_000;
    lemma_fundamental_div_mod(v as int, 500_000);
    lemma_shift_truncated(j, r, p);
    lemma_truncate_idempotent(r, p);
    let t = truncated(r, p);
    assert(truncated(v, p) == j * 500_000 + t);
    lemma_div_multiples_vanish_fancy((j + k) as int, t as int, 500_000);
    lemma_div_multiples_vanish_fancy((j + k) as int, r as int, 500_000);
    lemma_mod_multiples_vanish(j as int, t as int, 500_000);
    lemma_small_mod(t, 500_000);
    assert(truncated(v, p) + k * 500_000 == 500_000 * (j + k) + t);
    assert(v + k * 500_000 == 500_000 * (j + k) + r);
}

/// Text made of a supported super-square letter and the text of a point
/// parses to the coordinates of that point within the super-square.
proof fn lemma_parse_super(column: nat, row: nat, e: nat, n: nat, p: Precision)
    requires
        column < 5,
        row < 5,
        is_supported_square(GRID@[(column + 5 * row) as int]),
        e < 500_000,
        n < 500_000,
        e % (p.span() as nat) == 0,
        n % (p.span() as nat) == 0,
    ensures
        parse_osgb(seq![GRID@[(column + 5 * row) as int]] + point_text(e, n, p)) == Ok::<
            (nat, nat, Precision),
            Fault,
        >(((column * 500_000 + e - 1_000_000) as nat, (row * 500_000 + n - 500_000) as nat, p)),
        is_canonical(seq![GRID@[(column + 5 * row) as int]] + point_text(e, n, p)),
{
    lemma_point_round_trip(e, n, p);
    lemma_letter_bijection(column as usize, row as usize);
    lemma_grid_letters_upper();
    let letter = GRID@[(column + 5 * row) as int];
    let rest = point_text(e, n, p);
    let text = seq![letter] + rest;
    assert(is_canonical(text)) by {
        assert forall|i: int| 0 <= i < text.len() implies is_canonical_char(#[trigger] text[i]) by {
            if i > 0 {
                assert(text[i] == rest[i - 1]);
            }
        }
    }
    lemma_canonical_trimmed(text);
    assert(text.drop_first() =~= rest);
    assert(square_cell(text[0]) == Some((column as usize, row as usize)));
}

/// Formatting a constructed British reference and parsing the text gives
/// the reference back, so formatting the parsed reference gives the same
/// text again.
pub proof fn lemma_osgb_round_trip(e: u32, n: u32, p: Precision)
    ensures
        construct_osgb(e as nat, n as nat, p) matches Ok(v) ==> {
            &&& parse_osgb(osgb_text(v)) == Ok::<(nat, nat, Precision), Fault>(v)
            &&& osgb_text(parse_osgb(osgb_text(v))->Ok_0) == osgb_text(v)
        },
{
    let column = super_column(e as nat);
    let row = super_row(n as nat);
    if construct_osgb(e as nat, n as nat, p) is Ok {
        assert(column < 5 && row < 5);
        lemma_supported_cells(column as usize, row as usize);
        lemma_super_of_truncated(e as nat, 2, p);
        lemma_super_of_truncated(n as nat, 1, p);
        let te = truncated(e as nat, p);
        let tn = truncated(n as nat, p);
        let v = (te, tn, p);
        assert(construct_osgb(e as nat, n as nat, p) == Ok::<(nat, nat, Precision), Fault>(v));
        let pe = te % 500_000;
        let pn = tn % 500_000;
        lemma_parse_super(column, row, pe, pn, p);
        assert(super_column(te) == column);
        assert(super_row(tn) == row);
        assert(osgb_text(v) == seq![GRID@[(column + 5 * row) as int]] + point_text(pe, pn, p));
        lemma_fundamental_div_mod((te + 1_000_000) as int, 500_000);
        lemma_fundamental_div_mod((tn + 500_000) as int, 500_000);
        lemma_mod_multiples_vanish(2, te as int, 500_000);
        lemma_mod_multiples_vanish(1, tn as int, 500_000);
        assert(column * 500_000 + pe - 1_000_000 == te);
        assert(row * 500_000 + pn - 500_000 == tn);
    }
}

/// Building a British reference fails whenever the super-square of the
/// coordinates is a letter other than S, T, N, O and H; where it succeeds,
/// the super-square is one of them.
pub proof fn lemma_whitelist_construct(e: u32, n: u32, p: Precision)
    ensures
        square_letter(super_column(e as nat) as usize, super_row(n as nat) as usize) matches Some(c)
            && !is_supported_square(c) ==> construct_osgb(e as nat, n as nat, p) is Err,
        construct_osgb(e as nat, n as nat, p) is Ok ==> (square_letter(
            super_column(e as nat) as usize,
            super_row(n as nat) as usize,
        ) matches Some(c) && is_supported_square(c)),
{
}

/// Parsing British reference text fails whenever its first letter is not
/// one of S, T, N, O and H.
pub proof fn lemma_whitelist_parse(s: Seq<char>)
    ensures
        trimmed(s).len() > 0 && !is_supported_square(trimmed(s)[0]) ==> parse_osgb(s) is Err,
{
}

} // verus!
