use vstd::prelude::*;

use crate::coordinates::{
    bits_float_eq, copy_coordinates, coord_eq, is_nan, line_seqs, magnitude, Coordinate, Line,
    Polygon, MAGNITUDE_MASK,
};

verus! {

/// The sign bit of a binary64 value.
pub const SIGN_BIT: u64 = 0x8000_0000_0000_0000;

/// Whether the binary64 value with these bits is `<= 0.0` (false for NaN).
pub open spec fn non_positive(bits: u64) -> bool {
    !is_nan(bits) && (bits >= SIGN_BIT || magnitude(bits) == 0)
}

/// The points whose flag is set, in order.
pub open spec fn selected(points: Seq<Coordinate>, keep: Seq<bool>) -> Seq<Coordinate>
    decreases points.len(),
{
    if points.len() == 0 || keep.len() == 0 {
        Seq::empty()
    } else {
        let rest = selected(points.drop_last(), keep.drop_last());
        if keep.last() {
            rest.push(points.last())
        } else {
            rest
        }
    }
}

/// The number of interior points that the pending segments still cover.
pub open spec fn segment_work(segments: Seq<(usize, usize)>) -> int
    decreases segments.len(),
{
    if segments.len() == 0 {
        0
    } else {
        segment_work(segments.drop_last()) + (segments.last().1 - segments.last().0 - 1)
    }
}

/// The flags a simplification of `len` points starts from: with two points
/// or fewer, or a tolerance `<= 0`, every point is kept; otherwise only the
/// two ends.
pub open spec fn initial_keep(len: nat, epsilon: u64) -> Seq<bool> {
    if len <= 2 || non_positive(epsilon) {
        Seq::new(len, |i: int| true)
    } else {
        Seq::new(len, |i: int| i == 0 || i == len - 1)
    }
}

/// The segments a simplification of `len` points starts with.
pub open spec fn initial_pending(len: nat, epsilon: u64) -> Seq<(usize, usize)> {
    if len <= 2 || non_positive(epsilon) {
        Seq::empty()
    } else {
        seq![(0usize, (len - 1) as usize)]
    }
}

/// The Douglas-Peucker recursion over `len` points, as an explicit stack of
/// segments still to be examined.
///
/// The caller repeatedly takes [`DouglasPeucker::next_segment`], measures the
/// perpendicular distance of the segment's interior points to its chord, and
/// hands back the index of the farthest point when that distance exceeds the
/// tolerance (or `None`). The flags then say which points the simplified line
/// keeps. Both ends are always kept, and each step strictly reduces the
/// remaining work, so the process ends.
pub struct DouglasPeucker {
    keep: Vec<bool>,
    pending: Vec<(usize, usize)>,
}

impl DouglasPeucker {
    /// Which points are kept so far.
    pub closed spec fn kept(&self) -> Seq<bool> {
        self.keep@
    }

    /// The segments still to examine; the last one is examined next.
    pub closed spec fn pending(&self) -> Seq<(usize, usize)> {
        self.pending@
    }

    /// Both ends are kept, and every pending segment lies within the points,
    /// has an interior point, and has kept ends.
    pub open spec fn wf(&self) -> bool {
        &&& self.kept().len() >= 1 ==> self.kept()[0] && self.kept().last()
        &&& forall|i: int|
            0 <= i < self.pending().len() ==> {
                let (lo, hi) = #[trigger] self.pending()[i];
                &&& lo + 1 < hi
                &&& hi < self.kept().len()
                &&& self.kept()[lo as int]
                &&& self.kept()[hi as int]
            }
    }

    /// Starts the simplification of `len` points with a tolerance whose
    /// binary64 bits are `epsilon`.
    pub fn new(len: usize, epsilon: u64) -> (r: Self)
        ensures
            r.wf(),
            r.kept() == initial_keep(len as nat, epsilon),
            r.pending() == initial_pending(len as nat, epsilon),
    {
        let all = len <= 2 || ((epsilon & MAGNITUDE_MASK) <= 0x7ff0_0000_0000_0000 && (epsilon
            >= SIGN_BIT || (epsilon & MAGNITUDE_MASK) == 0));
        let mut keep: Vec<bool> = Vec::with_capacity(len);
        let mut i: usize = 0;
        while i < len
            invariant
                i <= len,
                keep@.len() == i,
                forall|j: int|
                    0 <= j < i ==> #[trigger] keep@[j] == (all || j == 0 || j == len - 1),
            decreases len - i,
        {
            keep.push(all || i == 0 || i == len - 1);
            i = i + 1;
        }
        let mut pending: Vec<(usize, usize)> = Vec::new();
        if !all {
            pending.push((0, len - 1));
        }
        let r = DouglasPeucker { keep, pending };
        assert(r.kept() =~= initial_keep(len as nat, epsilon));
        assert(r.pending() =~= initial_pending(len as nat, epsilon));
        r
    }

    /// The number of points.
    pub fn len(&self) -> (r: usize)
        ensures
            r == self.kept().len(),
    {
        self.keep.len()
    }

    /// Whether no segment is left to examine.
    pub fn is_done(&self) -> (r: bool)
        ensures
            r == (self.pending().len() == 0),
    {
        self.pending.len() == 0
    }

    /// The segment to examine next, as the indices of its two ends.
    pub fn next_segment(&self) -> (r: Option<(usize, usize)>)
        ensures
            r == (if self.pending().len() == 0 {
                None
            } else {
                Some(self.pending().last())
            }),
    {
        if self.pending.len() == 0 {
            None
        } else {
            Some(self.pending[self.pending.len() - 1])
        }
    }

    /// Settles the segment from [`DouglasPeucker::next_segment`]: `None` drops
    /// its interior points; `Some(k)` keeps point `k` and examines the two
    /// halves that meet there.
    pub fn resolve(&mut self, split: Option<usize>)
        requires
            old(self).wf(),
            old(self).pending().len() > 0,
            split matches Some(k) ==> old(self).pending().last().0 < k < old(self).pending().last().1,
        ensures
            final(self).wf(),
            segment_work(final(self).pending()) < segment_work(old(self).pending()),
            ({
                let (lo, hi) = old(self).pending().last();
                let rest = old(self).pending().drop_last();
                match split {
                    None => final(self).kept() == old(self).kept() && final(self).pending() == rest,
                    Some(k) => {
                        &&& final(self).kept() == old(self).kept().update(k as int, true)
                        &&& final(self).pending() == (if k - lo >= 2 {
                            rest.push((lo, k))
                        } else {
                            rest
                        }) + (if hi - k >= 2 {
                            seq![(k, hi)]
                        } else {
                            Seq::empty()
                        })
                    },
                }
            }),
    {
        let ghost before = self.pending@;
        let (lo, hi) = self.pending.pop().unwrap();
        assert(self.pending@ =~= before.drop_last());
        assert(before =~= self.pending@.push((lo, hi)));
        assert(segment_work(before) == segment_work(self.pending@) + (hi - lo - 1));
        if let Some(k) = split {
            self.keep.set(k, true);
            let ghost rest = self.pending@;
            if k - lo >= 2 {
                self.pending.push((lo, k));
                assert(self.pending@.drop_last() =~= rest);
                assert(segment_work(self.pending@) == segment_work(rest) + (k - lo - 1));
            }
            let ghost mid = self.pending@;
            assert(segment_work(mid) <= segment_work(rest) + (k - lo - 1));
            if hi - k >= 2 {
                self.pending.push((k, hi));
                assert(self.pending@.drop_last() =~= mid);
                assert(segment_work(self.pending@) == segment_work(mid) + (hi - k - 1));
            }
            assert(self.pending@ =~= mid + (if hi - k >= 2 {
                seq![(k, hi)]
            } else {
                Seq::empty()
            }));
        }
    }

    /// The points that are kept, in order.
    pub fn select(&self, points: &Vec<Coordinate>) -> (r: Vec<Coordinate>)
        requires
            points@.len() == self.kept().len(),
        ensures
            r@ == selected(points@, self.kept()),
    {
        let mut r: Vec<Coordinate> = Vec::new();
        let mut i: usize = 0;
        while i < points.len()
            invariant
                i <= points@.len(),
                points@.len() == self.keep@.len(),
                r@ == selected(points@.take(i as int), self.keep@.take(i as int)),
            decreases points@.len() - i,
        {
            assert(points@.take(i + 1).drop_last() =~= points@.take(i as int));
            assert(self.keep@.take(i + 1).drop_last() =~= self.keep@.take(i as int));
            if self.keep[i] {
                r.push(points[i]);
            }
            i = i + 1;
        }
        assert(points@.take(points@.len() as int) =~= points@);
        assert(self.keep@.take(points@.len() as int) =~= self.keep@);
        r
    }
}

/// Keeping every point keeps the line as it is.
pub proof fn lemma_selected_all(points: Seq<Coordinate>, keep: Seq<bool>)
    requires
        points.len() == keep.len(),
        forall|i: int| 0 <= i < keep.len() ==> #[trigger] keep[i],
    ensures
        selected(points, keep) == points,
    decreases points.len(),
{
    if points.len() > 0 {
        lemma_selected_all(points.drop_last(), keep.drop_last());
        assert(points.drop_last().push(points.last()) =~= points);
    }
}

/// When the first point is kept, the selection starts with it.
pub proof fn lemma_selected_first(points: Seq<Coordinate>, keep: Seq<bool>)
    requires
        points.len() == keep.len(),
        points.len() >= 1,
        keep[0],
    ensures
        selected(points, keep).len() >= 1,
        selected(points, keep)[0] == points[0],
    decreases points.len(),
{
    let rest = selected(points.drop_last(), keep.drop_last());
    if points.len() > 1 {
        lemma_selected_first(points.drop_last(), keep.drop_last());
        assert(rest[0] == points[0]);
        if keep.last() {
            assert(rest.push(points.last())[0] == rest[0]);
        }
    } else {
        assert(rest.len() == 0);
        assert(keep.last());
        assert(rest.push(points.last())[0] == points[0]);
    }
}

/// When both ends of two or more points are kept, the selection has at least
/// two points and the same ends.
pub proof fn lemma_selected_ends(points: Seq<Coordinate>, keep: Seq<bool>)
    requires
        points.len() == keep.len(),
        points.len() >= 2,
        keep[0],
        keep.last(),
    ensures
        selected(points, keep).len() >= 2,
        selected(points, keep)[0] == points[0],
        selected(points, keep).last() == points.last(),
{
    lemma_selected_first(points.drop_last(), keep.drop_last());
}

/// A ring as an open path: a last point equal to the first is dropped, for
/// rings of more than two points.
pub open spec fn open_path(ring: Seq<Coordinate>) -> Seq<Coordinate> {
    if ring.len() > 2 && coord_eq(ring[0], ring.last()) {
        ring.drop_last()
    } else {
        ring
    }
}

/// A path closed into a ring: the first point is appended when the path has
/// two or more points and does not already end on it.
pub open spec fn close_path(path: Seq<Coordinate>) -> Seq<Coordinate> {
    if path.len() > 1 && !coord_eq(path[0], path.last()) {
        path.push(path[0])
    } else {
        path
    }
}

/// A ring simplified with the given flags over its open path, then closed.
pub open spec fn simplified_ring(ring: Seq<Coordinate>, keep: Seq<bool>) -> Seq<Coordinate> {
    close_path(selected(open_path(ring), keep))
}

/// The fewest positions of a closed ring with three vertices: the three and
/// the closing repeat of the first.
pub const MIN_RING_POSITIONS: usize = 4;

/// Whether a simplified ring has too few vertices to bound an area: fewer
/// than three besides the closing point.
pub open spec fn degenerate_ring(ring: Seq<Coordinate>) -> bool {
    ring.len() < MIN_RING_POSITIONS
}

/// Whether simplifying a polygon's exterior would leave it degenerate, in
/// which case the polygon is kept unchanged.
pub open spec fn exterior_collapses(ring: Seq<Coordinate>, keep: Seq<bool>) -> bool {
    ring.len() > 2 && degenerate_ring(simplified_ring(ring, keep))
}

/// The simplified exterior ring; rings of two points or fewer stay as they are.
pub open spec fn simplified_exterior(ring: Seq<Coordinate>, keep: Seq<bool>) -> Seq<Coordinate> {
    if ring.len() > 2 {
        simplified_ring(ring, keep)
    } else {
        ring
    }
}

/// The fewest positions a simplified hole keeps; below this it is dropped.
pub const MIN_HOLE_POSITIONS: usize = 3;

/// The holes that survive simplification, simplified: a hole is dropped when
/// it has two points or fewer, or when it simplifies to fewer than three
/// positions.
pub open spec fn simplified_interiors(rings: Seq<Seq<Coordinate>>, keeps: Seq<Seq<bool>>) -> Seq<
    Seq<Coordinate>,
>
    decreases rings.len(),
{
    if rings.len() == 0 || keeps.len() == 0 {
        Seq::empty()
    } else {
        let rest = simplified_interiors(rings.drop_last(), keeps.drop_last());
        let ring = rings.last();
        let s = simplified_ring(ring, keeps.last());
        if ring.len() > 2 && s.len() >= MIN_HOLE_POSITIONS {
            rest.push(s)
        } else {
            rest
        }
    }
}

/// The flags of a list of simplifications.
pub open spec fn kept_flags(runs: Seq<DouglasPeucker>) -> Seq<Seq<bool>> {
    runs.map_values(|d: DouglasPeucker| d.kept())
}

/// The ring as an open path, see [`open_path`].
pub fn ring_path(ring: &Vec<Coordinate>) -> (r: Vec<Coordinate>)
    ensures
        r@ == open_path(ring@),
{
    let mut r = copy_coordinates(ring);
    if r.len() > 2 && coordinates_equal(&r[0], &r[r.len() - 1]) {
        r.pop();
        assert(r@ =~= ring@.drop_last());
    }
    r
}

/// The path closed into a ring, see [`close_path`].
pub fn close_ring(path: Vec<Coordinate>) -> (r: Vec<Coordinate>)
    ensures
        r@ == close_path(path@),
{
    let mut r = path;
    if r.len() > 1 && !coordinates_equal(&r[0], &r[r.len() - 1]) {
        let first = r[0];
        r.push(first);
    }
    r
}

/// Coordinate equality as `f64` components compare.
pub fn coordinates_equal(a: &Coordinate, b: &Coordinate) -> (r: bool)
    ensures
        r == coord_eq(*a, *b),
{
    bits_float_eq(a.x, b.x) && bits_float_eq(a.y, b.y)
}

/// Whether a simplification run fits a ring: it runs over the ring's open path.
pub open spec fn run_fits(run: DouglasPeucker, ring: Seq<Coordinate>) -> bool {
    run.wf() && run.kept().len() == open_path(ring).len()
}

impl Polygon {
    /// This polygon simplified with the given runs: `exterior` over the open
    /// path of the exterior ring, `interiors[i]` over that of hole `i`.
    ///
    /// Each ring of more than two points is opened, reduced to its kept
    /// points, and closed again. A simplified ring is degenerate when it has
    /// fewer than three vertices besides its closing point. If the exterior
    /// would become degenerate the polygon is returned unchanged. Holes that
    /// would keep fewer than three positions, or that have two points or
    /// fewer, are dropped.
    pub fn simplified(&self, exterior: &DouglasPeucker, interiors: &Vec<DouglasPeucker>) -> (r:
        Polygon)
        requires
            run_fits(*exterior, self.exterior.coordinates@),
            interiors@.len() == self.interiors@.len(),
            forall|i: int|
                0 <= i < interiors@.len() ==> run_fits(
                    #[trigger] interiors@[i],
                    self.interiors@[i].coordinates@,
                ),
        ensures
            if exterior_collapses(self.exterior.coordinates@, exterior.kept()) {
                &&& r.exterior.coordinates@ == self.exterior.coordinates@
                &&& line_seqs(r.interiors@) == line_seqs(self.interiors@)
            } else {
                &&& r.exterior.coordinates@ == simplified_exterior(
                    self.exterior.coordinates@,
                    exterior.kept(),
                )
                &&& line_seqs(r.interiors@) == simplified_interiors(
                    line_seqs(self.interiors@),
                    kept_flags(interiors@),
                )
            },
    {
        let ring = &self.exterior.coordinates;
        let new_exterior = if ring.len() > 2 {
            let path = ring_path(ring);
            let closed = close_ring(exterior.select(&path));
            if closed.len() < MIN_RING_POSITIONS {
                return self.copy();
            }
            closed
        } else {
            copy_coordinates(ring)
        };
        let mut holes: Vec<Line> = Vec::new();
        let mut i: usize = 0;
        while i < self.interiors.len()
            invariant
                i <= self.interiors@.len(),
                interiors@.len() == self.interiors@.len(),
                forall|j: int|
                    0 <= j < interiors@.len() ==> run_fits(
                        #[trigger] interiors@[j],
                        self.interiors@[j].coordinates@,
                    ),
                line_seqs(holes@) == simplified_interiors(
                    line_seqs(self.interiors@).take(i as int),
                    kept_flags(interiors@).take(i as int),
                ),
            decreases self.interiors@.len() - i,
        {
            let hole = &self.interiors[i].coordinates;
            let ghost rings = line_seqs(self.interiors@).take(i + 1);
            let ghost keeps = kept_flags(interiors@).take(i + 1);
            assert(rings.drop_last() =~= line_seqs(self.interiors@).take(i as int));
            assert(keeps.drop_last() =~= kept_flags(interiors@).take(i as int));
            assert(rings.last() == hole@);
            assert(keeps.last() == interiors@[i as int].kept());
            if hole.len() > 2 {
                let path = ring_path(hole);
                let closed = close_ring(interiors[i].select(&path));
                if closed.len() >= MIN_HOLE_POSITIONS {
                    let ghost before = holes@;
                    holes.push(Line { coordinates: closed });
                    assert(line_seqs(holes@) =~= line_seqs(before).push(closed@));
                }
            }
            i = i + 1;
        }
        assert(line_seqs(self.interiors@).take(self.interiors@.len() as int) =~= line_seqs(
            self.interiors@,
        ));
        assert(kept_flags(interiors@).take(self.interiors@.len() as int) =~= kept_flags(
            interiors@,
        ));
        Polygon { exterior: Line { coordinates: new_exterior }, interiors: holes }
    }
}

/// Ring closure: whatever the simplification keeps, a polygon whose exterior
/// is a closed ring of three or more points comes out with a closed exterior
/// of at least three points: the original ring, or a simplified ring with
/// three vertices or more besides its closing point.
pub proof fn lemma_exterior_stays_closed_ring(ring: Seq<Coordinate>, keep: Seq<bool>)
    requires
        ring.len() >= 3,
        coord_eq(ring[0], ring.last()),
        keep.len() == open_path(ring).len(),
        keep[0],
        keep.last(),
    ensures
        ({
            let e = if exterior_collapses(ring, keep) {
                ring
            } else {
                simplified_exterior(ring, keep)
            };
            &&& e.len() >= 3
            &&& coord_eq(e[0], e.last())
            &&& e == ring || e.len() >= MIN_RING_POSITIONS
        }),
{
    let path = open_path(ring);
    lemma_selected_ends(path, keep);
    let sel = selected(path, keep);
    assert(path[0] == ring[0]);
    if !coord_eq(sel[0], sel.last()) {
        assert(close_path(sel)[0] == sel[0]);
        assert(close_path(sel).last() == sel[0]);
    }
}

/// Round trip: with a tolerance `<= 0` the simplification starts finished and
/// keeps every point, so the line comes back vertex for vertex.
pub proof fn lemma_non_positive_tolerance_keeps_line(points: Seq<Coordinate>, epsilon: u64)
    requires
        non_positive(epsilon),
    ensures
        initial_pending(points.len(), epsilon).len() == 0,
        selected(points, initial_keep(points.len(), epsilon)) == points,
{
    lemma_selected_all(points, initial_keep(points.len(), epsilon));
}

} // verus!
