use crate::coordinates::metres::{lemma_truncate_idempotent, truncated, Metres};
use crate::coordinates::point::{
    cell_centre_halves, cell_corners, lemma_point_round_trip, parse_point, point_outcome,
    point_text, Point,
};
use crate::error::{Error, Fault};
use crate::utils::{lemma_canonical_trimmed, trim_string, trimmed};
use crate::Precision;
use vstd::prelude::*;

verus! {

/// A valid Irish national grid reference: a point on one 500 km grid, with
/// no super-square and no offset.
///
/// It can be built by parsing a string or from eastings and northings, and
/// converts between the two, as well as re-mapping to a new precision.
#[derive(Debug, PartialEq, Eq, Clone, Copy)]
pub struct OSI {
    point: Point,
}

/// The reference built from eastings, northings and a precision: the
/// coordinates truncated to the precision, or `OutOfBounds`.
pub open spec fn construct_osi(e: nat, n: nat, p: Precision) -> Result<(nat, nat, Precision), Fault> {
    if e >= 500_000 || n >= 500_000 {
        Err(Fault::OutOfBounds)
    } else {
        Ok((truncated(e, p), truncated(n, p), p))
    }
}

/// What parsing text as an Irish reference gives.
pub open spec fn parse_osi(s: Seq<char>) -> Result<(nat, nat, Precision), Fault> {
    parse_point(trimmed(s))
}

/// The text of the Irish reference with view `v`.
pub open spec fn osi_text(v: (nat, nat, Precision)) -> Seq<char> {
    point_text(v.0, v.1, v.2)
}

/// A reference re-mapped to precision `q`: unchanged where `q` is finer than
/// its own, else truncated to `q`.
pub open spec fn recalculated(v: (nat, nat, Precision), q: Precision) -> (nat, nat, Precision) {
    if q.span() < v.2.span() {
        v
    } else {
        (truncated(v.0, q), truncated(v.1, q), q)
    }
}

pub open spec fn osi_outcome(r: Result<OSI, Error>) -> Result<(nat, nat, Precision), Fault> {
    match r {
        Ok(g) => Ok(g@),
        Err(e) => Err(e@),
    }
}

impl View for OSI {
    type V = (nat, nat, Precision);

    closed spec fn view(&self) -> (nat, nat, Precision) {
        self.point@
    }
}

impl OSI {
    /// Creates a new grid reference from the given coordinates and
    /// precision; `OutOfBounds` where a coordinate is 500 km or more.
    pub fn new(eastings: u32, northings: u32, precision: Precision) -> (r: Result<OSI, Error>)
        ensures
            osi_outcome(r) == construct_osi(eastings as nat, northings as nat, precision),
    {
        let e = match Metres::new(eastings) {
            Ok(m) => m,
            Err(err) => return Err(err),
        };
        let n = match Metres::new(northings) {
            Ok(m) => m,
            Err(err) => return Err(err),
        };
        Ok(OSI { point: Point::new(e, n, precision) })
    }

    /// Recalculates the grid reference to a new precision. A precision finer
    /// than the reference's own leaves it unchanged.
    pub fn recalculate(&self, precision: Precision) -> (r: OSI)
        ensures
            r@ == recalculated(self@, precision),
    {
        if precision.metres() < self.point.precision().metres() {
            *self
        } else {
            OSI { point: Point::new(self.point.eastings(), self.point.northings(), precision) }
        }
    }

    /// The south-west corner of the reference's cell: its origin.
    pub fn sw(&self) -> (r: (u32, u32))
        ensures
            (r.0 as nat, r.1 as nat) == cell_corners(self@.0, self@.1, self@.2)[0],
    {
        (self.point.eastings().inner(), self.point.northings().inner())
    }

    /// The north-west corner of the reference's cell.
    pub fn nw(&self) -> (r: (u32, u32))
        ensures
            (r.0 as nat, r.1 as nat) == cell_corners(self@.0, self@.1, self@.2)[1],
    {
        let m = self.point.precision().metres();
        (self.point.eastings().inner(), self.point.northings().inner() + m)
    }

    /// The north-east corner of the reference's cell.
    pub fn ne(&self) -> (r: (u32, u32))
        ensures
            (r.0 as nat, r.1 as nat) == cell_corners(self@.0, self@.1, self@.2)[2],
    {
        let m = self.point.precision().metres();
        (self.point.eastings().inner() + m, self.point.northings().inner() + m)
    }

    /// The south-east corner of the reference's cell.
    pub fn se(&self) -> (r: (u32, u32))
        ensures
            (r.0 as nat, r.1 as nat) == cell_corners(self@.0, self@.1, self@.2)[3],
    {
        let m = self.point.precision().metres();
        (self.point.eastings().inner() + m, self.point.northings().inner())
    }

    /// The centre of the reference's cell, in half metres: twice its
    /// eastings and northings.
    pub fn centre_half_metres(&self) -> (r: (u32, u32))
        ensures
            (r.0 as nat, r.1 as nat) == cell_centre_halves(self@.0, self@.1, self@.2),
    {
        let m = self.point.precision().metres();
        (2 * self.point.eastings().inner() + m, 2 * self.point.northings().inner() + m)
    }

    /// The four corners of the reference's cell: south-west, north-west,
    /// north-east, south-east, with no closing repeat.
    pub fn perimeter(&self) -> (r: Vec<(u32, u32)>)
        ensures
            r@.len() == 4,
            forall|i: int|
                0 <= i < 4 ==> (#[trigger] r@[i].0 as nat, r@[i].1 as nat) == cell_corners(
                    self@.0,
                    self@.1,
                    self@.2,
                )[i],
    {
        vec![self.sw(), self.nw(), self.ne(), self.se()]
    }

    /// Returns the reference's precision.
    pub fn precision(&self) -> (r: Precision)
        ensures
            r == self@.2,
    {
        self.point.precision()
    }

    /// Parses a grid reference, ignoring ASCII whitespace and case.
    pub fn parse(s: &str) -> (r: Result<OSI, Error>)
        ensures
            osi_outcome(r) == parse_osi(s@),
    {
        let string = trim_string(s);
        match Point::parse(string.as_str()) {
            Ok(point) => Ok(OSI { point }),
            Err(e) => Err(e),
        }
    }

    /// The canonical text of the reference.
    pub fn to_string(&self) -> (r: String)
        ensures
            r@ == osi_text(self@),
    {
        self.point.to_string()
    }
}

impl std::str::FromStr for OSI {
    type Err = Error;

    fn from_str(s: &str) -> Result<Self, Self::Err> {
        OSI::parse(s)
    }
}

/// Formatting a constructed Irish reference and parsing the text gives the
/// reference back, so formatting the parsed reference gives the same text
/// again.
pub proof fn lemma_osi_round_trip(e: u32, n: u32, p: Precision)
    ensures
        construct_osi(e as nat, n as nat, p) matches Ok(v) ==> {
            &&& parse_osi(osi_text(v)) == Ok::<(nat, nat, Precision), Fault>(v)
            &&& osi_text(parse_osi(osi_text(v))->Ok_0) == osi_text(v)
        },
{
    if e < 500_000 && n < 500_000 {
        lemma_truncate_idempotent(e as nat, p);
        lemma_truncate_idempotent(n as nat, p);
        let te = truncated(e as nat, p);
        let tn = truncated(n as nat, p);
        lemma_point_round_trip(te, tn, p);
        lemma_canonical_trimmed(point_text(te, tn, p));
    }
}

} // verus!
