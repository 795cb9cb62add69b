//! Continuous points in fixed-point coordinates, grid points, and the
//! quantizer that maps the former to the latter.

use crate::error::ConversionError;
use crate::rounding::{lemma_round_nonnegative, round_half_away};
use vstd::prelude::*;

verus! {

/// Number of fixed-point units in one grid cell: coordinates carry 32
/// fractional bits.
pub const UNIT: i64 = 0x1_0000_0000;

/// Half a grid cell, in fixed-point units.
pub const HALF_UNIT: i64 = 0x8000_0000;

/// A continuous coordinate: a signed count of fixed-point units, each
/// `1 / UNIT` of a grid cell.
#[derive(Clone, Copy, Debug, PartialEq, Eq, Structural)]
pub struct Coordinate {
    pub units: i64,
}

impl View for Coordinate {
    type V = int;

    /// The coordinate as a count of fixed-point units.
    open spec fn view(&self) -> int {
        self.units as int
    }
}

impl Coordinate {
    /// The coordinate of the given count of fixed-point units.
    pub fn from_units(units: i64) -> (r: Coordinate)
        ensures
            r@ == units,
    {
        Coordinate { units }
    }

    /// The coordinate of a whole number of grid cells.
    pub fn from_cells(cells: i32) -> (r: Coordinate)
        ensures
            r@ == cells * UNIT,
    {
        let units: i64 = (cells as i64) * UNIT;
        Coordinate { units }
    }
}

/// A continuous point of the plane.
#[derive(Clone, Copy, Debug, PartialEq, Eq, Structural)]
pub struct Point {
    pub x: Coordinate,
    pub y: Coordinate,
}

impl Point {
    /// The point with the given coordinates.
    pub fn new(x: Coordinate, y: Coordinate) -> (r: Point)
        ensures
            r.x == x,
            r.y == y,
    {
        Point { x, y }
    }

    /// The origin, where every path starts.
    pub open spec fn origin() -> Point {
        Point { x: Coordinate { units: 0 }, y: Coordinate { units: 0 } }
    }

    /// Returns [`Point::origin`].
    pub fn at_origin() -> (r: Point)
        ensures
            r == Point::origin(),
    {
        Point { x: Coordinate { units: 0 }, y: Coordinate { units: 0 } }
    }

    /// Whether the point rounds to a cell of the grid, which has no negative
    /// coordinates.
    pub open spec fn on_grid(self) -> bool {
        grid_cell(self.x@) >= 0 && grid_cell(self.y@) >= 0
    }
}

/// The grid cell nearest to a coordinate given in fixed-point units; a
/// coordinate halfway between two cells goes to the one farther from zero.
pub open spec fn grid_cell(units: int) -> int {
    round_half_away(units, UNIT as int)
}

/// A coordinate rounds to a negative cell exactly when it lies half a cell or
/// more below zero.
pub proof fn lemma_grid_cell_sign(units: int)
    ensures
        grid_cell(units) < 0 <==> units <= -(HALF_UNIT as int),
        units >= 0 ==> grid_cell(units) >= 0,
{
    if units >= 0 {
        lemma_round_nonnegative(units, UNIT as int);
    } else {
        lemma_round_nonnegative(-units, UNIT as int);
    }
}

/// Rounds one coordinate to its grid cell, or reports that the cell would be
/// negative.
pub fn quantize_coordinate(c: Coordinate) -> (r: Result<u64, ConversionError>)
    ensures
        match r {
            Ok(cell) => grid_cell(c@) >= 0 && cell == grid_cell(c@),
            Err(e) => grid_cell(c@) < 0 && e == ConversionError::QuantizationDomainError,
        },
{
    proof {
        lemma_grid_cell_sign(c@);
    }
    if c.units >= 0 {
        let n: u64 = c.units as u64;
        let cell: u64 = (n + 0x8000_0000) / 0x1_0000_0000;
        proof {
            lemma_round_nonnegative(c@, UNIT as int);
            assert(cell * 0x1_0000_0000 <= n + 0x8000_0000 < cell * 0x1_0000_0000
                + 0x1_0000_0000);
        }
        Ok(cell)
    } else if c.units > -HALF_UNIT {
        proof {
            lemma_round_nonnegative(-c@, UNIT as int);
        }
        Ok(0)
    } else {
        Err(ConversionError::QuantizationDomainError)
    }
}

/// A point of the integer grid.
#[derive(Clone, Copy, Debug, PartialEq, Eq, Structural)]
pub struct UPoint {
    pub x: u64,
    pub y: u64,
}

impl UPoint {
    /// The grid point with the given coordinates.
    pub fn new(x: u64, y: u64) -> (r: UPoint)
        ensures
            r.x == x,
            r.y == y,
    {
        UPoint { x, y }
    }

    /// Quantizes a continuous point: each axis is rounded on its own to the
    /// nearest cell, ties away from zero. A point that would land on a negative
    /// cell is outside the grid and is refused.
    pub fn from_point(p: &Point) -> (r: Result<UPoint, ConversionError>)
        ensures
            match r {
                Ok(q) => p.on_grid() && q.x == grid_cell(p.x@) && q.y == grid_cell(p.y@),
                Err(e) => !p.on_grid() && e == ConversionError::QuantizationDomainError,
            },
    {
        let x = match quantize_coordinate(p.x) {
            Ok(cell) => cell,
            Err(e) => {
                return Err(e);
            },
        };
        let y = match quantize_coordinate(p.y) {
            Ok(cell) => cell,
            Err(e) => {
                return Err(e);
            },
        };
        Ok(UPoint { x, y })
    }
}

/// A grid point together with a tag that tells where it comes from: the index
/// of its segment for a move or a line, the index of the sample within its
/// curve for a curve.
#[derive(Clone, Copy, Debug, PartialEq, Eq, Structural)]
pub struct FullUPoint {
    pub x: u64,
    pub y: u64,
    pub segment: u64,
}

impl FullUPoint {
    /// The grid point `p` with the tag `segment`.
    pub fn from_upoint(p: &UPoint, segment: u64) -> (r: FullUPoint)
        ensures
            r.x == p.x,
            r.y == p.y,
            r.segment == segment,
    {
        FullUPoint { x: p.x, y: p.y, segment }
    }
}

} // verus!
