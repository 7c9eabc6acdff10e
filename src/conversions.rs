use vstd::prelude::*;

use crate::coordinates::{Coordinate, Line, Polygon};

verus! {

/// Conversion into the layout that geometry libraries use: a coordinate is
/// an `(x, y)` pair of component bit patterns, a line a list of pairs, a
/// polygon an exterior list and a list of hole lists.
pub trait ToGeo {
    type Output;

    fn to_geo(&self) -> Self::Output;
}

/// Conversion back from that layout.
pub trait FromGeo<T>: Sized {
    fn from_geo(value: &T) -> Self;
}

/// Whether `pairs` are the `(x, y)` pairs of `coords`, in order.
pub open spec fn pairs_of(pairs: Seq<(u64, u64)>, coords: Seq<Coordinate>) -> bool {
    &&& pairs.len() == coords.len()
    &&& forall|i: int| 0 <= i < pairs.len() ==> #[trigger] pairs[i] == (coords[i].x, coords[i].y)
}

/// The pairs of a coordinate list.
pub fn coordinate_pairs(coords: &Vec<Coordinate>) -> (r: Vec<(u64, u64)>)
    ensures
        r@.len() == coords@.len(),
        forall|i: int| 0 <= i < r@.len() ==> #[trigger] r@[i] == (coords@[i].x, coords@[i].y),
{
    let mut r: Vec<(u64, u64)> = Vec::with_capacity(coords.len());
    let mut i: usize = 0;
    while i < coords.len()
        invariant
            i <= coords@.len(),
            r@.len() == i,
            forall|j: int| 0 <= j < i ==> #[trigger] r@[j] == (coords@[j].x, coords@[j].y),
        decreases coords@.len() - i,
    {
        r.push((coords[i].x, coords[i].y));
        i = i + 1;
    }
    r
}

/// The coordinates of a pair list.
pub fn pair_coordinates(pairs: &Vec<(u64, u64)>) -> (r: Vec<Coordinate>)
    ensures
        r@.len() == pairs@.len(),
        forall|i: int|
            0 <= i < r@.len() ==> #[trigger] r@[i] == (Coordinate { x: pairs@[i].0, y: pairs@[i].1 }),
{
    let mut r: Vec<Coordinate> = Vec::with_capacity(pairs.len());
    let mut i: usize = 0;
    while i < pairs.len()
        invariant
            i <= pairs@.len(),
            r@.len() == i,
            forall|j: int|
                0 <= j < i ==> #[trigger] r@[j] == (Coordinate { x: pairs@[j].0, y: pairs@[j].1 }),
        decreases pairs@.len() - i,
    {
        r.push(Coordinate { x: pairs[i].0, y: pairs[i].1 });
        i = i + 1;
    }
    r
}

impl ToGeo for Coordinate {
    type Output = (u64, u64);

    fn to_geo(&self) -> (r: (u64, u64))
        ensures
            r == (self.x, self.y),
    {
        (self.x, self.y)
    }
}

impl FromGeo<(u64, u64)> for Coordinate {
    fn from_geo(value: &(u64, u64)) -> (r: Self)
        ensures
            r == (Coordinate { x: value.0, y: value.1 }),
    {
        Coordinate { x: value.0, y: value.1 }
    }
}

impl ToGeo for Line {
    type Output = Vec<(u64, u64)>;

    fn to_geo(&self) -> (r: Vec<(u64, u64)>)
        ensures
            r@.len() == self.coordinates@.len(),
            forall|i: int|
                0 <= i < r@.len() ==> #[trigger] r@[i] == (
                    self.coordinates@[i].x,
                    self.coordinates@[i].y,
                ),
    {
        coordinate_pairs(&self.coordinates)
    }
}

impl FromGeo<Vec<(u64, u64)>> for Line {
    fn from_geo(value: &Vec<(u64, u64)>) -> (r: Self)
        ensures
            r.coordinates@.len() == value@.len(),
            forall|i: int|
                0 <= i < value@.len() ==> #[trigger] r.coordinates@[i] == (Coordinate {
                    x: value@[i].0,
                    y: value@[i].1,
                }),
    {
        Line { coordinates: pair_coordinates(value) }
    }
}

impl ToGeo for Polygon {
    type Output = (Vec<(u64, u64)>, Vec<Vec<(u64, u64)>>);

    fn to_geo(&self) -> (r: (Vec<(u64, u64)>, Vec<Vec<(u64, u64)>>))
        ensures
            pairs_of(r.0@, self.exterior.coordinates@),
            r.1@.len() == self.interiors@.len(),
            forall|j: int|
                0 <= j < r.1@.len() ==> pairs_of(
                    #[trigger] r.1@[j]@,
                    self.interiors@[j].coordinates@,
                ),
    {
        let mut holes: Vec<Vec<(u64, u64)>> = Vec::with_capacity(self.interiors.len());
        let mut i: usize = 0;
        while i < self.interiors.len()
            invariant
                i <= self.interiors@.len(),
                holes@.len() == i,
                forall|j: int|
                    0 <= j < i ==> pairs_of(#[trigger] holes@[j]@, self.interiors@[j].coordinates@),
            decreases self.interiors@.len() - i,
        {
            holes.push(coordinate_pairs(&self.interiors[i].coordinates));
            i = i + 1;
        }
        (coordinate_pairs(&self.exterior.coordinates), holes)
    }
}

} // verus!
