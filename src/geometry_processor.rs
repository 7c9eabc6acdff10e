use vstd::prelude::*;

use crate::coordinates::{
    coord_eq, copy_coordinates, is_nan, is_valid_coordinate, line_seqs, position_coordinate, position_fault,
    within, Coordinate, Line, Polygon, LATITUDE_LIMIT_BITS, LONGITUDE_LIMIT_BITS,
};
use crate::error::{BufferPoolError, CoordinateFault, ProjectionError};
use crate::pool::CoordinateBufferPool;
use crate::simplification::coordinates_equal;

verus! {

/// A geometry as it arrives from the encoding layer. A position is the list
/// of the binary64 bit patterns of its components.
#[derive(Debug)]
pub enum Geometry {
    Point(Vec<u64>),
    LineString(Vec<Vec<u64>>),
    /// Rings; the first is the exterior, the others are holes.
    Polygon(Vec<Vec<Vec<u64>>>),
    MultiPoint(Vec<Vec<u64>>),
    MultiLineString(Vec<Vec<Vec<u64>>>),
    MultiPolygon(Vec<Vec<Vec<Vec<u64>>>>),
    GeometryCollection(Vec<Geometry>),
}

/// The sequences joined end to end.
pub open spec fn concat<A>(s: Seq<Seq<A>>) -> Seq<A>
    decreases s.len(),
{
    if s.len() == 0 {
        Seq::empty()
    } else {
        concat(s.drop_last()) + s.last()
    }
}

/// The positions of a path.
pub open spec fn path_positions(ps: Seq<Vec<u64>>) -> Seq<Seq<u64>> {
    ps.map_values(|p: Vec<u64>| p@)
}

/// The positions of each ring.
pub open spec fn ring_list(rs: Seq<Vec<Vec<u64>>>) -> Seq<Seq<Seq<u64>>> {
    rs.map_values(|r: Vec<Vec<u64>>| path_positions(r@))
}

/// The positions of a list of rings, ring after ring.
pub open spec fn rings_positions(rs: Seq<Vec<Vec<u64>>>) -> Seq<Seq<u64>> {
    concat(ring_list(rs))
}

/// The positions of each polygon.
pub open spec fn polygon_list(ps: Seq<Vec<Vec<Vec<u64>>>>) -> Seq<Seq<Seq<u64>>> {
    ps.map_values(|p: Vec<Vec<Vec<u64>>>| rings_positions(p@))
}

/// The positions of a list of polygons, polygon after polygon.
pub open spec fn polygons_positions(ps: Seq<Vec<Vec<Vec<u64>>>>) -> Seq<Seq<u64>> {
    concat(polygon_list(ps))
}

/// The positions of a geometry that is not a collection, in order; none for
/// a collection.
pub open spec fn simple_positions(g: Geometry) -> Seq<Seq<u64>> {
    match g {
        Geometry::Point(p) => seq![p@],
        Geometry::LineString(ps) => path_positions(ps@),
        Geometry::Polygon(rs) => rings_positions(rs@),
        Geometry::MultiPoint(ps) => path_positions(ps@),
        Geometry::MultiLineString(ls) => rings_positions(ls@),
        Geometry::MultiPolygon(ps) => polygons_positions(ps@),
        Geometry::GeometryCollection(_) => Seq::empty(),
    }
}

/// The positions of each member.
pub open spec fn member_list(ms: Seq<Geometry>) -> Seq<Seq<Seq<u64>>> {
    ms.map_values(|m: Geometry| simple_positions(m))
}

/// Every position of a geometry, in order: member after member for a
/// collection.
pub open spec fn positions(g: Geometry) -> Seq<Seq<u64>> {
    match g {
        Geometry::GeometryCollection(ms) => concat(member_list(ms@)),
        _ => simple_positions(g),
    }
}

/// The coordinates that well-formed positions stand for.
pub open spec fn coords_of(ps: Seq<Seq<u64>>) -> Seq<Coordinate> {
    ps.map_values(|p: Seq<u64>| position_coordinate(p))
}

/// The fault of the first rejected position, if any.
pub open spec fn first_fault(ps: Seq<Seq<u64>>) -> Option<CoordinateFault>
    decreases ps.len(),
{
    if ps.len() == 0 {
        None
    } else {
        match first_fault(ps.drop_last()) {
            Some(f) => Some(f),
            None => position_fault(ps.last()),
        }
    }
}

/// The structure a geometry that is not a collection must have: a polygon
/// has at least one ring.
pub open spec fn simple_well_shaped(g: Geometry) -> bool {
    match g {
        Geometry::Polygon(rs) => rs@.len() > 0,
        Geometry::MultiPolygon(ps) => forall|i: int| 0 <= i < ps@.len() ==> (#[trigger] ps@[i])@.len() > 0,
        Geometry::GeometryCollection(_) => false,
        _ => true,
    }
}

/// The structure a geometry must have: polygons have rings, and a
/// collection holds no collection.
pub open spec fn well_shaped(g: Geometry) -> bool {
    match g {
        Geometry::GeometryCollection(ms) => forall|i: int|
            0 <= i < ms@.len() ==> simple_well_shaped(#[trigger] ms@[i]),
        _ => simple_well_shaped(g),
    }
}

/// What validating a geometry gives: the structural error first, then the
/// fault of the first rejected position, else every coordinate in order.
pub open spec fn validation(g: Geometry) -> Result<Seq<Coordinate>, ProjectionError> {
    if !well_shaped(g) {
        Err(ProjectionError::InvalidGeometryType)
    } else {
        match first_fault(positions(g)) {
            Some(f) => Err(ProjectionError::InvalidCoordinates(f)),
            None => Ok(coords_of(positions(g))),
        }
    }
}

/// The first fault of two lists of positions read one after the other.
pub proof fn lemma_first_fault_append(a: Seq<Seq<u64>>, b: Seq<Seq<u64>>)
    ensures
        first_fault(a + b) == (match first_fault(a) {
            Some(f) => Some(f),
            None => first_fault(b),
        }),
    decreases b.len(),
{
    if b.len() == 0 {
        assert(a + b =~= a);
    } else {
        lemma_first_fault_append(a, b.drop_last());
        assert((a + b).drop_last() =~= a + b.drop_last());
    }
}

/// Joining the first `k` sequences and the rest gives the whole.
pub proof fn lemma_concat_split<A>(s: Seq<Seq<A>>, k: int)
    requires
        0 <= k <= s.len(),
    ensures
        concat(s) == concat(s.take(k)) + concat(s.skip(k)),
    decreases s.len(),
{
    if k == s.len() {
        assert(s.take(k) =~= s);
        assert(s.skip(k).len() == 0);
        assert(concat(s.take(k)) + concat(s.skip(k)) =~= concat(s));
    } else {
        lemma_concat_split(s.drop_last(), k);
        assert(s.drop_last().take(k) =~= s.take(k));
        assert(s.skip(k).drop_last() =~= s.drop_last().skip(k));
        assert(s.skip(k).last() == s.last());
        assert(concat(s) =~= concat(s.take(k)) + concat(s.skip(k)));
    }
}

/// Joining one more sequence onto a prefix.
pub proof fn lemma_concat_take_next<A>(s: Seq<Seq<A>>, i: int)
    requires
        0 <= i < s.len(),
    ensures
        concat(s.take(i + 1)) == concat(s.take(i)) + s[i],
{
    assert(s.take(i + 1).drop_last() =~= s.take(i));
}

/// A fault in the first `k` sequences is the first fault of the whole.
pub proof fn lemma_fault_in_prefix(s: Seq<Seq<Seq<u64>>>, k: int)
    requires
        0 <= k <= s.len(),
        first_fault(concat(s.take(k))) is Some,
    ensures
        first_fault(concat(s)) == first_fault(concat(s.take(k))),
{
    lemma_concat_split(s, k);
    lemma_first_fault_append(concat(s.take(k)), concat(s.skip(k)));
}

/// Reads and checks every position of a path, appending the coordinates.
fn validate_path(ps: &Vec<Vec<u64>>, out: &mut Vec<Coordinate>) -> (r: Result<(), CoordinateFault>)
    ensures
        match first_fault(path_positions(ps@)) {
            None => r is Ok && final(out)@ == old(out)@ + coords_of(path_positions(ps@)),
            Some(f) => r == Err::<(), CoordinateFault>(f),
        },
{
    let ghost start = out@;
    let ghost all = path_positions(ps@);
    let mut i: usize = 0;
    while i < ps.len()
        invariant
            i <= ps@.len(),
            all == path_positions(ps@),
            first_fault(all.take(i as int)) is None,
            out@ == start + coords_of(all.take(i as int)),
        decreases ps@.len() - i,
    {
        assert(all.take(i + 1).drop_last() =~= all.take(i as int));
        assert(all.take(i + 1).last() == ps@[i as int]@);
        match Coordinate::from_position(&ps[i]) {
            Ok(c) => {
                out.push(c);
                assert(coords_of(all.take(i + 1)) =~= coords_of(all.take(i as int)).push(c));
                i = i + 1;
            },
            Err(f) => {
                proof {
                    let k = i + 1;
                    assert(all =~= all.take(k) + all.skip(k));
                    lemma_first_fault_append(all.take(k), all.skip(k));
                }
                return Err(f);
            },
        }
    }
    assert(all.take(ps@.len() as int) =~= all);
    Ok(())
}

/// Reads and checks every position of a list of rings, appending the
/// coordinates.
fn validate_rings(rs: &Vec<Vec<Vec<u64>>>, out: &mut Vec<Coordinate>) -> (r: Result<
    (),
    CoordinateFault,
>)
    ensures
        match first_fault(rings_positions(rs@)) {
            None => r is Ok && final(out)@ == old(out)@ + coords_of(rings_positions(rs@)),
            Some(f) => r == Err::<(), CoordinateFault>(f),
        },
{
    let ghost start = out@;
    let ghost list = ring_list(rs@);
    let mut i: usize = 0;
    while i < rs.len()
        invariant
            i <= rs@.len(),
            list == ring_list(rs@),
            first_fault(concat(list.take(i as int))) is None,
            out@ == start + coords_of(concat(list.take(i as int))),
        decreases rs@.len() - i,
    {
        proof {
            lemma_concat_take_next(list, i as int);
            lemma_first_fault_append(concat(list.take(i as int)), list[i as int]);
        }
        let ghost before = out@;
        match validate_path(&rs[i], out) {
            Ok(()) => {
                assert(coords_of(concat(list.take(i + 1))) =~= coords_of(
                    concat(list.take(i as int)),
                ) + coords_of(list[i as int]));
                assert(out@ =~= start + coords_of(concat(list.take(i + 1))));
                i = i + 1;
            },
            Err(f) => {
                proof {
                    lemma_fault_in_prefix(list, i + 1);
                }
                return Err(f);
            },
        }
    }
    assert(list.take(rs@.len() as int) =~= list);
    Ok(())
}

/// Reads and checks every position of a list of polygons, appending the
/// coordinates.
fn validate_polygons(ps: &Vec<Vec<Vec<Vec<u64>>>>, out: &mut Vec<Coordinate>) -> (r: Result<
    (),
    CoordinateFault,
>)
    ensures
        match first_fault(polygons_positions(ps@)) {
            None => r is Ok && final(out)@ == old(out)@ + coords_of(polygons_positions(ps@)),
            Some(f) => r == Err::<(), CoordinateFault>(f),
        },
{
    let ghost start = out@;
    let ghost list = polygon_list(ps@);
    let mut i: usize = 0;
    while i < ps.len()
        invariant
            i <= ps@.len(),
            list == polygon_list(ps@),
            first_fault(concat(list.take(i as int))) is None,
            out@ == start + coords_of(concat(list.take(i as int))),
        decreases ps@.len() - i,
    {
        proof {
            lemma_concat_take_next(list, i as int);
            lemma_first_fault_append(concat(list.take(i as int)), list[i as int]);
        }
        match validate_rings(&ps[i], out) {
            Ok(()) => {
                assert(coords_of(concat(list.take(i + 1))) =~= coords_of(
                    concat(list.take(i as int)),
                ) + coords_of(list[i as int]));
                assert(out@ =~= start + coords_of(concat(list.take(i + 1))));
                i = i + 1;
            },
            Err(f) => {
                proof {
                    lemma_fault_in_prefix(list, i + 1);
                }
                return Err(f);
            },
        }
    }
    assert(list.take(ps@.len() as int) =~= list);
    Ok(())
}

/// Reads and checks every position of a geometry that is not a collection.
fn validate_simple(g: &Geometry, out: &mut Vec<Coordinate>) -> (r: Result<(), CoordinateFault>)
    ensures
        match first_fault(simple_positions(*g)) {
            None => r is Ok && final(out)@ == old(out)@ + coords_of(simple_positions(*g)),
            Some(f) => r == Err::<(), CoordinateFault>(f),
        },
{
    match g {
        Geometry::Point(p) => {
            proof {
                assert(seq![p@].drop_last() =~= Seq::<Seq<u64>>::empty());
                reveal_with_fuel(first_fault, 2);
                assert(first_fault(seq![p@]) == position_fault(p@));
            }
            let c = Coordinate::from_position(p);
            match c {
                Ok(c) => {
                    out.push(c);
                    assert(coords_of(seq![p@]) =~= seq![c]);
                    Ok(())
                },
                Err(f) => Err(f),
            }
        },
        Geometry::LineString(ps) => validate_path(ps, out),
        Geometry::Polygon(rs) => validate_rings(rs, out),
        Geometry::MultiPoint(ps) => validate_path(ps, out),
        Geometry::MultiLineString(ls) => validate_rings(ls, out),
        Geometry::MultiPolygon(ps) => validate_polygons(ps, out),
        Geometry::GeometryCollection(_) => Ok(()),
    }
}

/// Whether every polygon of a list has at least one ring.
fn polygons_have_rings(ps: &Vec<Vec<Vec<Vec<u64>>>>) -> (r: bool)
    ensures
        r == forall|i: int| 0 <= i < ps@.len() ==> (#[trigger] ps@[i])@.len() > 0,
{
    let mut i: usize = 0;
    while i < ps.len()
        invariant
            i <= ps@.len(),
            forall|j: int| 0 <= j < i ==> (#[trigger] ps@[j])@.len() > 0,
        decreases ps@.len() - i,
    {
        if ps[i].len() == 0 {
            assert(ps@[i as int]@.len() == 0);
            return false;
        }
        i = i + 1;
    }
    true
}

/// Whether a geometry that is not a collection has the structure it needs.
fn check_simple_shape(g: &Geometry) -> (r: bool)
    ensures
        r == simple_well_shaped(*g),
{
    match g {
        Geometry::Polygon(rs) => rs.len() > 0,
        Geometry::MultiPolygon(ps) => polygons_have_rings(ps),
        Geometry::GeometryCollection(_) => false,
        _ => true,
    }
}

/// Whether every member of a collection has the structure it needs and is
/// not a collection.
fn members_well_shaped(ms: &Vec<Geometry>) -> (r: bool)
    ensures
        r == forall|i: int| 0 <= i < ms@.len() ==> simple_well_shaped(#[trigger] ms@[i]),
{
    let mut i: usize = 0;
    while i < ms.len()
        invariant
            i <= ms@.len(),
            forall|j: int| 0 <= j < i ==> simple_well_shaped(#[trigger] ms@[j]),
        decreases ms@.len() - i,
    {
        if !check_simple_shape(&ms[i]) {
            assert(!simple_well_shaped(ms@[i as int]));
            return false;
        }
        i = i + 1;
    }
    true
}

/// Whether a geometry has the structure it needs.
fn check_shape(g: &Geometry) -> (r: bool)
    ensures
        r == well_shaped(*g),
{
    match g {
        Geometry::GeometryCollection(ms) => members_well_shaped(ms),
        _ => check_simple_shape(g),
    }
}

/// Validates a geometry and lists its coordinates in order, ready to be
/// transformed: see [`validation`].
pub fn validate_geometry(g: &Geometry) -> (r: Result<Vec<Coordinate>, ProjectionError>)
    ensures
        match validation(*g) {
            Ok(cs) => r matches Ok(v) && v@ == cs,
            Err(e) => r == Err::<Vec<Coordinate>, ProjectionError>(e),
        },
{
    if !check_shape(g) {
        return Err(ProjectionError::InvalidGeometryType);
    }
    let mut out: Vec<Coordinate> = Vec::new();
    match g {
        Geometry::GeometryCollection(ms) => {
            let ghost list = member_list(ms@);
            let mut i: usize = 0;
            while i < ms.len()
                invariant
                    *g == Geometry::GeometryCollection(*ms),
                    well_shaped(*g),
                    i <= ms@.len(),
                    list == member_list(ms@),
                    first_fault(concat(list.take(i as int))) is None,
                    out@ == coords_of(concat(list.take(i as int))),
                decreases ms@.len() - i,
            {
                proof {
                    lemma_concat_take_next(list, i as int);
                    lemma_first_fault_append(concat(list.take(i as int)), list[i as int]);
                }
                match validate_simple(&ms[i], &mut out) {
                    Ok(()) => {
                        assert(coords_of(concat(list.take(i + 1))) =~= coords_of(
                            concat(list.take(i as int)),
                        ) + coords_of(list[i as int]));
                        assert(out@ =~= coords_of(concat(list.take(i + 1))));
                        i = i + 1;
                    },
                    Err(f) => {
                        proof {
                            assert(list[i as int] == simple_positions(ms@[i as int]));
                            lemma_fault_in_prefix(list, i + 1);
                        }
                        return Err(ProjectionError::InvalidCoordinates(f));
                    },
                }
            }
            assert(list.take(ms@.len() as int) =~= list);
        },
        _ => {
            match validate_simple(g, &mut out) {
                Ok(()) => {
                    assert(out@ =~= coords_of(simple_positions(*g)));
                },
                Err(f) => {
                    return Err(ProjectionError::InvalidCoordinates(f));
                },
            }
        },
    }
    Ok(out)
}

/// The number of coordinates handed to the transformer at a time.
pub const BATCH_SIZE: usize = 1000;

/// A geometry after transformation, of the same kind and structure as the
/// input it came from.
#[derive(Debug)]
pub enum ProcessedGeometry {
    Point(Coordinate),
    LineString(Line),
    Polygon(Polygon),
    MultiPoint(Vec<Coordinate>),
    MultiLineString(Vec<Line>),
    MultiPolygon(Vec<Polygon>),
    GeometryCollection(Vec<ProcessedGeometry>),
}

/// The rings of a polygon, exterior first.
pub open spec fn polygon_rings(p: Polygon) -> Seq<Seq<Coordinate>> {
    seq![p.exterior.coordinates@] + line_seqs(p.interiors@)
}

/// Whether two lists of sequences have the same number of sequences, of the
/// same lengths one for one.
pub open spec fn same_lengths<A, B>(a: Seq<Seq<A>>, b: Seq<Seq<B>>) -> bool {
    &&& a.len() == b.len()
    &&& forall|i: int| 0 <= i < a.len() ==> (#[trigger] a[i]).len() == b[i].len()
}

/// `s` cut into consecutive pieces as long as the given parts.
pub open spec fn split_by<A, B>(s: Seq<A>, parts: Seq<Seq<B>>) -> Seq<Seq<A>>
    decreases parts.len(),
{
    if parts.len() == 0 {
        Seq::empty()
    } else {
        let n = concat(parts.drop_last()).len();
        split_by(s.take(n as int), parts.drop_last()).push(
            s.subrange(n as int, (n + parts.last().len()) as int),
        )
    }
}

/// A ring closed on reassembly: a non-empty ring whose last point differs
/// from its first gets the first point appended.
pub open spec fn closed_ring(ring: Seq<Coordinate>) -> Seq<Coordinate> {
    if ring.len() > 0 && !coord_eq(ring[0], ring.last()) {
        ring.push(ring[0])
    } else {
        ring
    }
}

/// Each ring closed on reassembly.
pub open spec fn closed_rings(rings: Seq<Seq<Coordinate>>) -> Seq<Seq<Coordinate>> {
    rings.map_values(|r: Seq<Coordinate>| closed_ring(r))
}

/// Whether `p` is the polygon with the given rings of positions, its
/// positions replaced in order by `coords` and each ring closed.
pub open spec fn polygon_image(p: Polygon, rings: Seq<Seq<Seq<u64>>>, coords: Seq<Coordinate>) -> bool {
    polygon_rings(p) == closed_rings(split_by(coords, rings))
}

/// Whether `out` is the geometry `g`, not a collection, with its positions
/// replaced in order by `coords`: same kind, same parts, rings and points in
/// the same order, and polygon rings closed.
pub open spec fn simple_image(g: Geometry, out: ProcessedGeometry, coords: Seq<Coordinate>) -> bool {
    match g {
        Geometry::Point(_) => out matches ProcessedGeometry::Point(c) && coords == seq![c],
        Geometry::LineString(_) => out matches ProcessedGeometry::LineString(l)
            && l.coordinates@ == coords,
        Geometry::Polygon(rs) => out matches ProcessedGeometry::Polygon(p) && polygon_image(
            p,
            ring_list(rs@),
            coords,
        ),
        Geometry::MultiPoint(_) => out matches ProcessedGeometry::MultiPoint(cs) && cs@ == coords,
        Geometry::MultiLineString(ls) => out matches ProcessedGeometry::MultiLineString(lines)
            && line_seqs(lines@) == split_by(coords, ring_list(ls@)),
        Geometry::MultiPolygon(ps) => out matches ProcessedGeometry::MultiPolygon(polys)
            && polys@.len() == ps@.len() && (forall|i: int|
            0 <= i < polys@.len() ==> polygon_image(
                #[trigger] polys@[i],
                ring_list(ps@[i]@),
                split_by(coords, polygon_list(ps@))[i],
            )),
        Geometry::GeometryCollection(_) => false,
    }
}

/// Whether `out` is the geometry `g` with its positions replaced in order by
/// `coords`; a collection keeps its members' count, kinds and order.
pub open spec fn is_image(g: Geometry, out: ProcessedGeometry, coords: Seq<Coordinate>) -> bool {
    match g {
        Geometry::GeometryCollection(ms) => out matches ProcessedGeometry::GeometryCollection(outs)
            && outs@.len() == ms@.len() && (forall|i: int|
            0 <= i < outs@.len() ==> simple_image(
                #[trigger] ms@[i],
                outs@[i],
                split_by(coords, member_list(ms@))[i],
            )),
        _ => simple_image(g, out, coords),
    }
}

/// Sequences of the given lengths, joined, are cut back into themselves.
pub proof fn lemma_split_unique<A, B>(raw: Seq<Seq<A>>, parts: Seq<Seq<B>>)
    requires
        same_lengths(raw, parts),
    ensures
        concat(raw).len() == concat(parts).len(),
        split_by(concat(raw), parts) == raw,
    decreases parts.len(),
{
    if parts.len() > 0 {
        let r0 = raw.drop_last();
        let p0 = parts.drop_last();
        assert(same_lengths(r0, p0)) by {
            assert forall|i: int| 0 <= i < r0.len() implies (#[trigger] r0[i]).len() == p0[i].len() by {
                assert(r0[i] == raw[i]);
            }
        }
        lemma_split_unique(r0, p0);
        let n = concat(p0).len();
        assert(raw.last().len() == parts.last().len());
        assert(concat(raw).take(n as int) =~= concat(r0));
        assert(concat(raw).subrange(n as int, (n + parts.last().len()) as int) =~= raw.last());
        assert(split_by(concat(raw), parts) =~= r0.push(raw.last()));
        assert(r0.push(raw.last()) =~= raw);
    }
}

/// The views of a list of coordinate buffers.
pub open spec fn batch_seqs(bs: Seq<Vec<Coordinate>>) -> Seq<Seq<Coordinate>> {
    bs.map_values(|b: Vec<Coordinate>| b@)
}

/// Splits coordinates into consecutive batches of [`BATCH_SIZE`], the last
/// one possibly shorter; joined, the batches give the coordinates back.
pub fn batches(coords: &Vec<Coordinate>) -> (r: Vec<Vec<Coordinate>>)
    ensures
        concat(batch_seqs(r@)) == coords@,
        forall|i: int| 0 <= i < r@.len() ==> 0 < (#[trigger] r@[i])@.len() <= BATCH_SIZE,
        forall|i: int| 0 <= i < r@.len() - 1 ==> (#[trigger] r@[i])@.len() == BATCH_SIZE,
{
    let mut r: Vec<Vec<Coordinate>> = Vec::new();
    let mut start: usize = 0;
    while start < coords.len()
        invariant
            start <= coords@.len(),
            concat(batch_seqs(r@)) == coords@.subrange(0, start as int),
            forall|i: int| 0 <= i < r@.len() ==> 0 < (#[trigger] r@[i])@.len() <= BATCH_SIZE,
            forall|i: int| 0 <= i < r@.len() - 1 ==> (#[trigger] r@[i])@.len() == BATCH_SIZE,
            r@.len() > 0 && start < coords@.len() ==> r@.last()@.len() == BATCH_SIZE,
        decreases coords@.len() - start,
    {
        let end: usize = if coords.len() - start > BATCH_SIZE {
            start + BATCH_SIZE
        } else {
            coords.len()
        };
        let mut batch: Vec<Coordinate> = Vec::with_capacity(end - start);
        let mut k: usize = start;
        while k < end
            invariant
                start <= k <= end <= coords@.len(),
                batch@ == coords@.subrange(start as int, k as int),
            decreases end - k,
        {
            batch.push(coords[k]);
            k = k + 1;
            assert(batch@ =~= coords@.subrange(start as int, k as int));
        }
        let ghost before = r@;
        r.push(batch);
        assert(batch_seqs(r@).drop_last() =~= batch_seqs(before));
        assert(coords@.subrange(0, end as int) =~= coords@.subrange(0, start as int)
            + coords@.subrange(start as int, end as int));
        start = end;
    }
    assert(coords@.subrange(0, coords@.len() as int) =~= coords@);
    r
}

/// Copies `count` coordinates from `start` through the scratch buffer.
fn copy_run(src: &Vec<Coordinate>, start: usize, count: usize, scratch: &mut Vec<Coordinate>) -> (r:
    Vec<Coordinate>)
    requires
        start + count <= src@.len(),
    ensures
        r@ == src@.subrange(start as int, start + count),
{
    scratch.clear();
    let n = src.len();
    let mut i: usize = 0;
    while i < count
        invariant
            n == src@.len(),
            start + count <= src@.len(),
            i <= count,
            scratch@ == src@.subrange(start as int, start + i),
        decreases count - i,
    {
        scratch.push(src[start + i]);
        i = i + 1;
        assert(scratch@ =~= src@.subrange(start as int, start + i));
    }
    copy_coordinates(scratch)
}

/// Joining consecutive ranges.
proof fn lemma_subrange_join(s: Seq<Coordinate>, a: int, b: int, c: int)
    requires
        0 <= a <= b <= c <= s.len(),
    ensures
        s.subrange(a, b) + s.subrange(b, c) == s.subrange(a, c),
{
    assert(s.subrange(a, b) + s.subrange(b, c) =~= s.subrange(a, c));
}

/// A prefix of the joined sequences is no longer than the whole.
proof fn lemma_concat_prefix_len<A>(s: Seq<Seq<A>>, i: int)
    requires
        0 <= i <= s.len(),
    ensures
        concat(s.take(i)).len() <= concat(s).len(),
{
    lemma_concat_split(s, i);
}

/// Builds one line per list of positions, taking coordinates in order from
/// `start`; returns the lines and where the next coordinate is.
fn build_lines(
    rs: &Vec<Vec<Vec<u64>>>,
    src: &Vec<Coordinate>,
    start: usize,
    scratch: &mut Vec<Coordinate>,
) -> (r: (Vec<Line>, usize))
    requires
        start + rings_positions(rs@).len() <= src@.len(),
    ensures
        r.1 == start + rings_positions(rs@).len(),
        r.0@.len() == rs@.len(),
        line_seqs(r.0@) == split_by(src@.subrange(start as int, r.1 as int), ring_list(rs@)),
{
    let ghost list = ring_list(rs@);
    let n = src.len();
    let mut lines: Vec<Line> = Vec::new();
    let mut at: usize = start;
    let mut i: usize = 0;
    while i < rs.len()
        invariant
            n == src@.len(),
            list == ring_list(rs@),
            start + concat(list).len() <= src@.len(),
            i <= rs@.len(),
            at == start + concat(list.take(i as int)).len(),
            same_lengths(line_seqs(lines@), list.take(i as int)),
            concat(line_seqs(lines@)) == src@.subrange(start as int, at as int),
        decreases rs@.len() - i,
    {
        proof {
            lemma_concat_take_next(list, i as int);
            lemma_concat_prefix_len(list, i + 1);
        }
        let count = rs[i].len();
        assert(list[i as int].len() == count);
        let coords = copy_run(src, at, count, scratch);
        let ghost before = lines@;
        lines.push(Line { coordinates: coords });
        proof {
            assert(line_seqs(lines@) =~= line_seqs(before).push(coords@));
            assert(line_seqs(lines@).drop_last() =~= line_seqs(before));
            lemma_subrange_join(src@, start as int, at as int, at + count);
            assert(list.take(i + 1) =~= list.take(i as int).push(list[i as int]));
        }
        at = at + count;
        i = i + 1;
    }
    assert(list.take(rs@.len() as int) =~= list);
    proof {
        lemma_split_unique(line_seqs(lines@), list);
    }
    (lines, at)
}

/// The coordinates closed into a ring, see [`closed_ring`].
fn close_coordinates(coords: Vec<Coordinate>) -> (r: Vec<Coordinate>)
    ensures
        r@ == closed_ring(coords@),
{
    let mut r = coords;
    if r.len() > 0 && !coordinates_equal(&r[0], &r[r.len() - 1]) {
        let first = r[0];
        r.push(first);
    }
    r
}

/// Each line closed into a ring.
fn close_lines(lines: Vec<Line>) -> (r: Vec<Line>)
    ensures
        r@.len() == lines@.len(),
        line_seqs(r@) == closed_rings(line_seqs(lines@)),
{
    let mut lines = lines;
    let ghost all = line_seqs(lines@);
    let mut r: Vec<Line> = Vec::with_capacity(lines.len());
    while lines.len() > 0
        invariant
            all.len() == r@.len() + lines@.len(),
            forall|k: int| 0 <= k < lines@.len() ==> #[trigger] lines@[k].coordinates@ == all[r@.len() + k],
            forall|k: int| 0 <= k < r@.len() ==> #[trigger] r@[k].coordinates@ == closed_ring(all[k]),
        decreases lines@.len(),
    {
        let ghost before = lines@;
        let line = lines.remove(0);
        assert(line.coordinates@ == all[r@.len() as int]);
        assert forall|k: int| 0 <= k < lines@.len() implies #[trigger] lines@[k].coordinates@ == all[r@.len() + 1 + k] by {
            assert(lines@[k] == before[k + 1]);
        }
        r.push(Line { coordinates: close_coordinates(line.coordinates) });
    }
    assert(line_seqs(r@) =~= closed_rings(all));
    r
}

/// Builds a polygon from one list of rings, taking coordinates in order from
/// `start` and closing each ring; returns it and where the next coordinate is.
fn build_polygon(
    rs: &Vec<Vec<Vec<u64>>>,
    src: &Vec<Coordinate>,
    start: usize,
    scratch: &mut Vec<Coordinate>,
) -> (r: (Polygon, usize))
    requires
        rs@.len() > 0,
        start + rings_positions(rs@).len() <= src@.len(),
    ensures
        r.1 == start + rings_positions(rs@).len(),
        polygon_image(r.0, ring_list(rs@), src@.subrange(start as int, r.1 as int)),
{
    let (lines, next) = build_lines(rs, src, start, scratch);
    let closed = close_lines(lines);
    let poly = polygon_from_lines(closed);
    (poly, next)
}

/// A polygon from its rings, exterior first.
fn polygon_from_lines(lines: Vec<Line>) -> (r: Polygon)
    requires
        lines@.len() > 0,
    ensures
        polygon_rings(r) == line_seqs(lines@),
{
    let ghost all = lines@;
    let mut lines = lines;
    let exterior = lines.remove(0);
    assert(line_seqs(all) =~= seq![exterior.coordinates@] + line_seqs(lines@));
    Polygon { exterior, interiors: lines }
}

/// Builds one polygon per list of rings, taking coordinates in order from
/// `start`; returns the polygons and where the next coordinate is.
fn build_polygons(
    ps: &Vec<Vec<Vec<Vec<u64>>>>,
    src: &Vec<Coordinate>,
    start: usize,
    scratch: &mut Vec<Coordinate>,
) -> (r: (Vec<Polygon>, usize))
    requires
        start + polygons_positions(ps@).len() <= src@.len(),
        forall|i: int| 0 <= i < ps@.len() ==> (#[trigger] ps@[i])@.len() > 0,
    ensures
        r.1 == start + polygons_positions(ps@).len(),
        r.0@.len() == ps@.len(),
        forall|i: int|
            0 <= i < r.0@.len() ==> polygon_image(
                #[trigger] r.0@[i],
                ring_list(ps@[i]@),
                split_by(src@.subrange(start as int, r.1 as int), polygon_list(ps@))[i],
            ),
{
    let ghost list = polygon_list(ps@);
    let ghost mut raws: Seq<Seq<Coordinate>> = Seq::empty();
    let mut polys: Vec<Polygon> = Vec::new();
    let mut at: usize = start;
    let mut i: usize = 0;
    while i < ps.len()
        invariant
            list == polygon_list(ps@),
            forall|j: int| 0 <= j < ps@.len() ==> (#[trigger] ps@[j])@.len() > 0,
            start + concat(list).len() <= src@.len(),
            i <= ps@.len(),
            at == start + concat(list.take(i as int)).len(),
            polys@.len() == i,
            same_lengths(raws, list.take(i as int)),
            concat(raws) == src@.subrange(start as int, at as int),
            forall|j: int|
                0 <= j < i ==> polygon_image(#[trigger] polys@[j], ring_list(ps@[j]@), raws[j]),
        decreases ps@.len() - i,
    {
        proof {
            lemma_concat_take_next(list, i as int);
            lemma_concat_prefix_len(list, i + 1);
        }
        assert(list[i as int] == rings_positions(ps@[i as int]@));
        let (poly, next) = build_polygon(&ps[i], src, at, scratch);
        polys.push(poly);
        proof {
            let piece = src@.subrange(at as int, next as int);
            let old_raws = raws;
            raws = raws.push(piece);
            assert(raws.drop_last() =~= old_raws);
            lemma_subrange_join(src@, start as int, at as int, next as int);
            assert(list.take(i + 1) =~= list.take(i as int).push(list[i as int]));
            assert(same_lengths(raws, list.take(i + 1))) by {
                assert forall|k: int| 0 <= k < raws.len() implies (#[trigger] raws[k]).len() == list.take(i + 1)[k].len() by {
                    if k < i {
                        assert(raws[k] == old_raws[k]);
                    }
                }
            }
        }
        at = next;
        i = i + 1;
    }
    assert(list.take(ps@.len() as int) =~= list);
    proof {
        lemma_split_unique(raws, list);
    }
    (polys, at)
}

/// Builds the image of a geometry that is not a collection, taking
/// coordinates in order from `start`; returns it and where the next
/// coordinate is.
fn build_simple(g: &Geometry, src: &Vec<Coordinate>, start: usize, scratch: &mut Vec<Coordinate>) -> (r:
    (ProcessedGeometry, usize))
    requires
        simple_well_shaped(*g),
        start + simple_positions(*g).len() <= src@.len(),
    ensures
        r.1 == start + simple_positions(*g).len(),
        simple_image(*g, r.0, src@.subrange(start as int, r.1 as int)),
{
    let n = src.len();
    match g {
        Geometry::Point(_) => {
            let c = src[start];
            assert(src@.subrange(start as int, start + 1) =~= seq![c]);
            (ProcessedGeometry::Point(c), start + 1)
        },
        Geometry::LineString(ps) => {
            assert(path_positions(ps@).len() == ps@.len());
            let coords = copy_run(src, start, ps.len(), scratch);
            (ProcessedGeometry::LineString(Line { coordinates: coords }), start + ps.len())
        },
        Geometry::Polygon(rs) => {
            let (poly, next) = build_polygon(rs, src, start, scratch);
            (ProcessedGeometry::Polygon(poly), next)
        },
        Geometry::MultiPoint(ps) => {
            assert(path_positions(ps@).len() == ps@.len());
            let coords = copy_run(src, start, ps.len(), scratch);
            (ProcessedGeometry::MultiPoint(coords), start + ps.len())
        },
        Geometry::MultiLineString(ls) => {
            let (lines, next) = build_lines(ls, src, start, scratch);
            (ProcessedGeometry::MultiLineString(lines), next)
        },
        Geometry::MultiPolygon(ps) => {
            let (polys, next) = build_polygons(ps, src, start, scratch);
            (ProcessedGeometry::MultiPolygon(polys), next)
        },
        Geometry::GeometryCollection(_) => {
            assert(false);
            (ProcessedGeometry::GeometryCollection(Vec::new()), start)
        },
    }
}

/// Builds the image of a well-shaped geometry from all of `src`.
fn build_geometry(g: &Geometry, src: &Vec<Coordinate>, scratch: &mut Vec<Coordinate>) -> (r:
    ProcessedGeometry)
    requires
        well_shaped(*g),
        src@.len() == positions(*g).len(),
    ensures
        is_image(*g, r, src@),
{
    match g {
        Geometry::GeometryCollection(ms) => {
            let ghost list = member_list(ms@);
            assert(forall|j: int| 0 <= j < ms@.len() ==> simple_well_shaped(#[trigger] ms@[j]));
            let ghost mut raws: Seq<Seq<Coordinate>> = Seq::empty();
            let mut outs: Vec<ProcessedGeometry> = Vec::new();
            let mut at: usize = 0;
            let mut i: usize = 0;
            while i < ms.len()
                invariant
                    *g == Geometry::GeometryCollection(*ms),
                    forall|j: int| 0 <= j < ms@.len() ==> simple_well_shaped(#[trigger] ms@[j]),
                    list == member_list(ms@),
                    src@.len() == concat(list).len(),
                    i <= ms@.len(),
                    at == concat(list.take(i as int)).len(),
                    outs@.len() == i,
                    same_lengths(raws, list.take(i as int)),
                    concat(raws) == src@.subrange(0, at as int),
                    forall|j: int| 0 <= j < i ==> simple_image(#[trigger] ms@[j], outs@[j], raws[j]),
                decreases ms@.len() - i,
            {
                proof {
                    lemma_concat_take_next(list, i as int);
                    lemma_concat_prefix_len(list, i + 1);
                }
                assert(list[i as int] == simple_positions(ms@[i as int]));
                assert(simple_well_shaped(ms@[i as int]));
                let (out, next) = build_simple(&ms[i], src, at, scratch);
                outs.push(out);
                proof {
                    let piece = src@.subrange(at as int, next as int);
                    let old_raws = raws;
                    raws = raws.push(piece);
                    assert(raws.drop_last() =~= old_raws);
                    lemma_subrange_join(src@, 0, at as int, next as int);
                    assert(list.take(i + 1) =~= list.take(i as int).push(list[i as int]));
                    assert(same_lengths(raws, list.take(i + 1))) by {
                        assert forall|k: int| 0 <= k < raws.len() implies (#[trigger] raws[k]).len()
                            == list.take(i + 1)[k].len() by {
                            if k < i {
                                assert(raws[k] == old_raws[k]);
                            }
                        }
                    }
                }
                at = next;
                i = i + 1;
            }
            assert(list.take(ms@.len() as int) =~= list);
            assert(src@.subrange(0, at as int) =~= src@);
            proof {
                lemma_split_unique(raws, list);
            }
            ProcessedGeometry::GeometryCollection(outs)
        },
        _ => {
            let (out, next) = build_simple(g, src, 0, scratch);
            assert(src@.subrange(0, next as int) =~= src@);
            out
        },
    }
}

/// Converts one geometry: [`GeometryProcessor::validate`] checks it and
/// lists its coordinates, the caller transforms them (in [`batches`]), and
/// [`GeometryProcessor::assemble`] puts the transformed coordinates back into
/// the geometry's structure.
pub struct GeometryProcessor<'a> {
    geometry: &'a Geometry,
}

impl<'a> GeometryProcessor<'a> {
    /// The geometry being converted.
    pub closed spec fn geometry(&self) -> Geometry {
        *self.geometry
    }

    /// A processor for the geometry.
    pub fn new(geometry: &'a Geometry) -> (r: Self)
        ensures
            r.geometry() == *geometry,
    {
        GeometryProcessor { geometry }
    }

    /// Checks the geometry and lists its coordinates in order: a structural
    /// error first, then the fault of the first rejected position; see
    /// [`validation`]. Nothing is transformed before this succeeds.
    pub fn validate(&self) -> (r: Result<Vec<Coordinate>, ProjectionError>)
        ensures
            match validation(self.geometry()) {
                Ok(cs) => r matches Ok(v) && v@ == cs,
                Err(e) => r == Err::<Vec<Coordinate>, ProjectionError>(e),
            },
    {
        validate_geometry(self.geometry)
    }

    /// Rebuilds the geometry with its coordinates replaced, in order, by
    /// `transformed`, closing every polygon ring. A point is rebuilt directly;
    /// any other geometry uses a point buffer of the pool as scratch space and
    /// hands it back before returning.
    ///
    /// Fails with `InvalidGeometryType` when the geometry is structurally
    /// invalid, and, for a geometry other than a point, with `PoolFull` when
    /// the pool cannot take the buffer back, which happens exactly when its
    /// bound is 0. The pool is untouched when it is not used.
    pub fn assemble(&self, transformed: &Vec<Coordinate>, pool: &mut CoordinateBufferPool) -> (r:
        Result<ProcessedGeometry, ProjectionError>)
        requires
            old(pool).wf(),
            transformed@.len() == positions(self.geometry()).len(),
        ensures
            final(pool).wf(),
            !well_shaped(self.geometry()) ==> r == Err::<ProcessedGeometry, ProjectionError>(
                ProjectionError::InvalidGeometryType,
            ) && *final(pool) == *old(pool),
            self.geometry() is Point ==> (r matches Ok(out) && is_image(
                self.geometry(),
                out,
                transformed@,
            )) && *final(pool) == *old(pool),
            well_shaped(self.geometry()) && !(self.geometry() is Point) && old(pool).max() == 0
                ==> r == Err::<ProcessedGeometry, ProjectionError>(
                ProjectionError::BufferPoolError(BufferPoolError::PoolFull),
            ),
            well_shaped(self.geometry()) && !(self.geometry() is Point) && old(pool).max() > 0
                ==> (r matches Ok(out) && is_image(self.geometry(), out, transformed@)),
            well_shaped(self.geometry()) && !(self.geometry() is Point) ==> {
                &&& final(pool).points().len() == (if old(pool).points().len() > 0
                    || old(pool).max() == 0 {
                    old(pool).points().len()
                } else {
                    1
                })
                &&& final(pool).lines() == old(pool).lines()
                &&& final(pool).polygons() == old(pool).polygons()
                &&& final(pool).max() == old(pool).max()
                &&& final(pool).capacity_hint() == old(pool).capacity_hint()
                &&& final(pool).counters() == old(pool).counters().after_acquire().after_release()
            },
    {
        if !check_shape(self.geometry) {
            return Err(ProjectionError::InvalidGeometryType);
        }
        if let Geometry::Point(_) = self.geometry {
            assert(transformed@ =~= seq![transformed@[0]]);
            return Ok(ProcessedGeometry::Point(transformed[0]));
        }
        let mut scratch = pool.get_point_buffer();
        let out = build_geometry(self.geometry, transformed, &mut scratch);
        match pool.return_point_buffer(scratch) {
            Ok(()) => Ok(out),
            Err(e) => Err(ProjectionError::BufferPoolError(e)),
        }
    }
}

/// A point at a valid geographic coordinate passes validation with exactly
/// that one coordinate, and converts to a point at the one transformed
/// coordinate.
pub proof fn lemma_valid_point_converts(p: Vec<u64>)
    requires
        p@.len() == 2,
        is_valid_coordinate(position_coordinate(p@)),
    ensures
        validation(Geometry::Point(p)) == Ok::<Seq<Coordinate>, ProjectionError>(
            seq![position_coordinate(p@)],
        ),
        forall|out: ProcessedGeometry, t: Coordinate|
            is_image(Geometry::Point(p), out, seq![t]) ==> out == ProcessedGeometry::Point(t),
{
    reveal_with_fuel(first_fault, 2);
    assert(seq![p@].drop_last() =~= Seq::<Seq<u64>>::empty());
    assert(coords_of(seq![p@]) =~= seq![position_coordinate(p@)]);
    assert forall|out: ProcessedGeometry, t: Coordinate|
        is_image(Geometry::Point(p), out, seq![t]) implies out == ProcessedGeometry::Point(t) by {
        if let ProcessedGeometry::Point(c) = out {
            assert(seq![t][0] == seq![c][0]);
        }
    }
}

/// A point with a NaN component is rejected as NaN, whatever its range.
pub proof fn lemma_nan_point_rejected(p: Vec<u64>)
    requires
        p@.len() == 2,
        is_nan(p@[0]) || is_nan(p@[1]),
    ensures
        validation(Geometry::Point(p)) == Err::<Seq<Coordinate>, ProjectionError>(
            ProjectionError::InvalidCoordinates(CoordinateFault::NotANumber),
        ),
{
    reveal_with_fuel(first_fault, 2);
    assert(seq![p@].drop_last() =~= Seq::<Seq<u64>>::empty());
}

/// A point outside the longitude or latitude bounds, without NaN, is
/// rejected as out of range.
pub proof fn lemma_out_of_range_point_rejected(p: Vec<u64>)
    requires
        p@.len() == 2,
        !is_nan(p@[0]),
        !is_nan(p@[1]),
        !within(p@[0], LONGITUDE_LIMIT_BITS) || !within(p@[1], LATITUDE_LIMIT_BITS),
    ensures
        validation(Geometry::Point(p)) == Err::<Seq<Coordinate>, ProjectionError>(
            ProjectionError::InvalidCoordinates(CoordinateFault::OutOfRange),
        ),
{
    reveal_with_fuel(first_fault, 2);
    assert(seq![p@].drop_last() =~= Seq::<Seq<u64>>::empty());
}

/// Whether a position has two components and at least one is NaN.
pub open spec fn nan_position(p: Seq<u64>) -> bool {
    p.len() == 2 && (is_nan(p[0]) || is_nan(p[1]))
}

/// Whether a position has two components and is a valid geographic coordinate.
pub open spec fn valid_position(p: Seq<u64>) -> bool {
    p.len() == 2 && is_valid_coordinate(position_coordinate(p))
}

/// Whether a position has two components, neither NaN, and lies outside the
/// longitude or latitude bounds.
pub open spec fn out_of_range_position(p: Seq<u64>) -> bool {
    &&& p.len() == 2
    &&& !is_nan(p[0])
    &&& !is_nan(p[1])
    &&& !within(p[0], LONGITUDE_LIMIT_BITS) || !within(p[1], LATITUDE_LIMIT_BITS)
}

/// When every position is either accepted or rejected with the same fault,
/// that fault is reported exactly when some position has it.
proof fn lemma_single_fault(ps: Seq<Seq<u64>>, f: CoordinateFault)
    requires
        forall|i: int|
            0 <= i < ps.len() ==> (#[trigger] position_fault(ps[i])) is None || position_fault(ps[i])
                == Some(f),
    ensures
        first_fault(ps) == (if exists|i: int| 0 <= i < ps.len() && #[trigger] position_fault(ps[i]) == Some(f) {
            Some(f)
        } else {
            None
        }),
    decreases ps.len(),
{
    if ps.len() > 0 {
        let rest = ps.drop_last();
        assert forall|i: int| 0 <= i < rest.len() implies (#[trigger] position_fault(rest[i])) is None
            || position_fault(rest[i]) == Some(f) by {
            assert(rest[i] == ps[i]);
        }
        lemma_single_fault(rest, f);
        if exists|i: int| 0 <= i < ps.len() && #[trigger] position_fault(ps[i]) == Some(f) {
            let i = choose|i: int| 0 <= i < ps.len() && #[trigger] position_fault(ps[i]) == Some(f);
            if i < rest.len() {
                assert(position_fault(rest[i]) == Some(f));
            } else {
                assert(position_fault(ps.last()) == Some(f));
            }
        } else {
            assert(position_fault(ps[ps.len() - 1]) is None);
            if exists|i: int| 0 <= i < rest.len() && #[trigger] position_fault(rest[i]) == Some(f) {
                let i = choose|i: int| 0 <= i < rest.len() && #[trigger] position_fault(rest[i]) == Some(f);
                assert(position_fault(ps[i]) == Some(f));
            }
        }
    }
}

/// A well-shaped geometry whose positions are each valid or NaN, with at
/// least one NaN, is rejected as NaN, never with another error.
pub proof fn lemma_nan_geometry_rejected(g: Geometry)
    requires
        well_shaped(g),
        forall|i: int|
            0 <= i < positions(g).len() ==> valid_position(#[trigger] positions(g)[i])
                || nan_position(positions(g)[i]),
        exists|i: int| 0 <= i < positions(g).len() && nan_position(#[trigger] positions(g)[i]),
    ensures
        validation(g) == Err::<Seq<Coordinate>, ProjectionError>(
            ProjectionError::InvalidCoordinates(CoordinateFault::NotANumber),
        ),
{
    let ps = positions(g);
    assert forall|i: int| 0 <= i < ps.len() implies (#[trigger] position_fault(ps[i])) is None
        || position_fault(ps[i]) == Some(CoordinateFault::NotANumber) by {
        assert(valid_position(ps[i]) || nan_position(ps[i]));
    }
    let k = choose|i: int| 0 <= i < ps.len() && nan_position(#[trigger] ps[i]);
    assert(position_fault(ps[k]) == Some(CoordinateFault::NotANumber));
    lemma_single_fault(ps, CoordinateFault::NotANumber);
}

/// A well-shaped geometry with no NaN component and at least one position
/// outside the bounds is rejected as out of range.
pub proof fn lemma_out_of_range_geometry_rejected(g: Geometry)
    requires
        well_shaped(g),
        forall|i: int|
            0 <= i < positions(g).len() ==> valid_position(#[trigger] positions(g)[i])
                || out_of_range_position(positions(g)[i]),
        exists|i: int|
            0 <= i < positions(g).len() && out_of_range_position(#[trigger] positions(g)[i]),
    ensures
        validation(g) == Err::<Seq<Coordinate>, ProjectionError>(
            ProjectionError::InvalidCoordinates(CoordinateFault::OutOfRange),
        ),
{
    let ps = positions(g);
    assert forall|i: int| 0 <= i < ps.len() implies (#[trigger] position_fault(ps[i])) is None
        || position_fault(ps[i]) == Some(CoordinateFault::OutOfRange) by {
        assert(valid_position(ps[i]) || out_of_range_position(ps[i]));
    }
    let k = choose|i: int| 0 <= i < ps.len() && out_of_range_position(#[trigger] ps[i]);
    assert(position_fault(ps[k]) == Some(CoordinateFault::OutOfRange));
    lemma_single_fault(ps, CoordinateFault::OutOfRange);
}

} // verus!
