use vstd::prelude::*;

use crate::error::CoordinateFault;

verus! {

/// Mask of every bit of a binary64 value but its sign.
pub const MAGNITUDE_MASK: u64 = 0x7fff_ffff_ffff_ffff;

/// Bit pattern of positive infinity: all exponent bits set, zero mantissa.
pub const INFINITY_BITS: u64 = 0x7ff0_0000_0000_0000;

/// Bit pattern of the binary64 value 180.
pub const LONGITUDE_LIMIT_BITS: u64 = 0x4066_8000_0000_0000;

/// Bit pattern of the binary64 value 90.
pub const LATITUDE_LIMIT_BITS: u64 = 0x4056_8000_0000_0000;

/// The bits of a binary64 value without its sign: for values that are not
/// NaN, `|a| <= |b|` exactly when `magnitude(a) <= magnitude(b)`.
pub open spec fn magnitude(bits: u64) -> u64 {
    bits & MAGNITUDE_MASK
}

/// A binary64 value is NaN when its exponent bits are all set and its
/// mantissa is not zero.
pub open spec fn is_nan(bits: u64) -> bool {
    magnitude(bits) > INFINITY_BITS
}

/// Binary64 equality (`==` on `f64`): NaN equals nothing, and the two zeros
/// are equal.
pub open spec fn float_eq(a: u64, b: u64) -> bool {
    !is_nan(a) && !is_nan(b) && (a == b || (magnitude(a) == 0 && magnitude(b) == 0))
}

/// A value that is not NaN lies in [-limit, limit] when its magnitude is at
/// most the limit's.
pub open spec fn within(bits: u64, limit_bits: u64) -> bool {
    magnitude(bits) <= limit_bits
}

/// Executable NaN test on a bit pattern.
pub fn bits_are_nan(bits: u64) -> (r: bool)
    ensures
        r == is_nan(bits),
{
    (bits & MAGNITUDE_MASK) > INFINITY_BITS
}

/// Executable binary64 equality on bit patterns.
pub fn bits_float_eq(a: u64, b: u64) -> (r: bool)
    ensures
        r == float_eq(a, b),
{
    if bits_are_nan(a) || bits_are_nan(b) {
        false
    } else {
        a == b || ((a & MAGNITUDE_MASK) == 0 && (b & MAGNITUDE_MASK) == 0)
    }
}

/// A 2D coordinate; `x` and `y` are the binary64 bit patterns of its
/// components (longitude and latitude for geographic input).
#[derive(Debug, Clone, Copy, PartialEq, Eq, Structural)]
pub struct Coordinate {
    pub x: u64,
    pub y: u64,
}

/// Coordinate equality as `f64` components compare.
pub open spec fn coord_eq(a: Coordinate, b: Coordinate) -> bool {
    float_eq(a.x, b.x) && float_eq(a.y, b.y)
}

/// Whether a coordinate is an acceptable geographic position.
pub open spec fn is_valid_coordinate(c: Coordinate) -> bool {
    !is_nan(c.x) && !is_nan(c.y) && within(c.x, LONGITUDE_LIMIT_BITS) && within(
        c.y,
        LATITUDE_LIMIT_BITS,
    )
}

/// Why a coordinate is rejected, if it is: NaN is reported before range.
pub open spec fn coordinate_fault(c: Coordinate) -> Option<CoordinateFault> {
    if is_nan(c.x) || is_nan(c.y) {
        Some(CoordinateFault::NotANumber)
    } else if !within(c.x, LONGITUDE_LIMIT_BITS) || !within(c.y, LATITUDE_LIMIT_BITS) {
        Some(CoordinateFault::OutOfRange)
    } else {
        None
    }
}

/// Why a position (a list of component bit patterns) is rejected, if it is.
pub open spec fn position_fault(p: Seq<u64>) -> Option<CoordinateFault> {
    if p.len() != 2 {
        Some(CoordinateFault::WrongArity)
    } else {
        coordinate_fault(Coordinate { x: p[0], y: p[1] })
    }
}

/// The coordinate that a two-component position stands for.
pub open spec fn position_coordinate(p: Seq<u64>) -> Coordinate {
    Coordinate { x: p[0], y: p[1] }
}

impl Coordinate {
    /// A coordinate from the bit patterns of its components.
    pub fn new(x: u64, y: u64) -> (r: Self)
        ensures
            r.x == x,
            r.y == y,
    {
        Coordinate { x, y }
    }

    /// The components as a position.
    pub fn to_vec(&self) -> (r: Vec<u64>)
        ensures
            r@ == seq![self.x, self.y],
    {
        vec![self.x, self.y]
    }

    /// Each coordinate as a position, in order.
    pub fn to_vecs(coords: &Vec<Coordinate>) -> (r: Vec<Vec<u64>>)
        ensures
            r@.len() == coords@.len(),
            forall|i: int| 0 <= i < coords@.len() ==> #[trigger] r@[i]@ == seq![coords@[i].x, coords@[i].y],
    {
        let mut r: Vec<Vec<u64>> = Vec::new();
        let mut i: usize = 0;
        while i < coords.len()
            invariant
                i <= coords@.len(),
                r@.len() == i,
                forall|j: int| 0 <= j < i ==> #[trigger] r@[j]@ == seq![coords@[j].x, coords@[j].y],
            decreases coords@.len() - i,
        {
            r.push(coords[i].to_vec());
            i = i + 1;
        }
        r
    }

    /// Checks a coordinate: NaN components are rejected first, then
    /// longitudes outside [-180, 180] and latitudes outside [-90, 90].
    pub fn validate(&self) -> (r: Result<(), CoordinateFault>)
        ensures
            r is Ok <==> coordinate_fault(*self) is None,
            r is Ok <==> is_valid_coordinate(*self),
            r matches Err(f) ==> coordinate_fault(*self) == Some(f),
    {
        if bits_are_nan(self.x) || bits_are_nan(self.y) {
            Err(CoordinateFault::NotANumber)
        } else if (self.x & MAGNITUDE_MASK) > LONGITUDE_LIMIT_BITS || (self.y & MAGNITUDE_MASK)
            > LATITUDE_LIMIT_BITS {
            Err(CoordinateFault::OutOfRange)
        } else {
            Ok(())
        }
    }

    /// Reads and checks a position: it must have exactly two components,
    /// then pass [`Coordinate::validate`].
    pub fn from_position(p: &Vec<u64>) -> (r: Result<Coordinate, CoordinateFault>)
        ensures
            match position_fault(p@) {
                None => r == Ok::<Coordinate, CoordinateFault>(position_coordinate(p@)),
                Some(f) => r == Err::<Coordinate, CoordinateFault>(f),
            },
    {
        if p.len() != 2 {
            return Err(CoordinateFault::WrongArity);
        }
        let c = Coordinate { x: p[0], y: p[1] };
        match c.validate() {
            Ok(()) => Ok(c),
            Err(f) => Err(f),
        }
    }
}

/// An ordered sequence of coordinates: an open polyline or a closed ring.
#[derive(Debug, Clone)]
pub struct Line {
    pub coordinates: Vec<Coordinate>,
}

/// An exterior ring and zero or more interior rings (holes).
#[derive(Debug, Clone)]
pub struct Polygon {
    pub exterior: Line,
    pub interiors: Vec<Line>,
}

/// The coordinate sequences of a list of lines.
pub open spec fn line_seqs(lines: Seq<Line>) -> Seq<Seq<Coordinate>> {
    lines.map_values(|l: Line| l.coordinates@)
}

/// A copy of a coordinate sequence.
pub fn copy_coordinates(coords: &Vec<Coordinate>) -> (r: Vec<Coordinate>)
    ensures
        r@ == coords@,
{
    let mut r: Vec<Coordinate> = Vec::with_capacity(coords.len());
    let mut i: usize = 0;
    while i < coords.len()
        invariant
            i <= coords@.len(),
            r@ == coords@.take(i as int),
        decreases coords@.len() - i,
    {
        r.push(coords[i]);
        i = i + 1;
        assert(r@ =~= coords@.take(i as int));
    }
    assert(coords@.take(coords@.len() as int) =~= coords@);
    r
}

/// A copy of a list of lines.
pub fn copy_lines(lines: &Vec<Line>) -> (r: Vec<Line>)
    ensures
        line_seqs(r@) == line_seqs(lines@),
{
    let mut r: Vec<Line> = Vec::with_capacity(lines.len());
    let mut i: usize = 0;
    while i < lines.len()
        invariant
            i <= lines@.len(),
            r@.len() == i,
            forall|k: int| 0 <= k < i ==> #[trigger] r@[k].coordinates@ == lines@[k].coordinates@,
        decreases lines@.len() - i,
    {
        r.push(Line { coordinates: copy_coordinates(&lines[i].coordinates) });
        i = i + 1;
    }
    assert(line_seqs(r@) =~= line_seqs(lines@));
    r
}

impl Line {
    /// A line through the given coordinates.
    pub fn new(coordinates: Vec<Coordinate>) -> (r: Self)
        ensures
            r.coordinates@ == coordinates@,
    {
        Line { coordinates }
    }

    /// The coordinates as positions, in order.
    pub fn to_vecs(&self) -> (r: Vec<Vec<u64>>)
        ensures
            r@.len() == self.coordinates@.len(),
            forall|i: int|
                0 <= i < self.coordinates@.len() ==> #[trigger] r@[i]@ == seq![
                    self.coordinates@[i].x,
                    self.coordinates@[i].y,
                ],
    {
        Coordinate::to_vecs(&self.coordinates)
    }
}

impl Polygon {
    /// A polygon from its exterior ring and its holes.
    pub fn new(exterior: Line, interiors: Vec<Line>) -> (r: Self)
        ensures
            r.exterior.coordinates@ == exterior.coordinates@,
            line_seqs(r.interiors@) == line_seqs(interiors@),
    {
        Polygon { exterior, interiors }
    }

    /// A copy of this polygon.
    pub fn copy(&self) -> (r: Self)
        ensures
            r.exterior.coordinates@ == self.exterior.coordinates@,
            line_seqs(r.interiors@) == line_seqs(self.interiors@),
    {
        Polygon {
            exterior: Line { coordinates: copy_coordinates(&self.exterior.coordinates) },
            interiors: copy_lines(&self.interiors),
        }
    }
}

} // verus!
