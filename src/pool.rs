use vstd::prelude::*;

use std::collections::VecDeque;

use crate::coordinates::{Coordinate, Line};
use crate::error::BufferPoolError;

verus! {

/// Usage counters of a buffer pool, over all three kinds of buffer.
#[derive(Debug, Clone, Copy, PartialEq, Eq, Structural)]
pub struct BufferPoolStats {
    /// Buffers handed out.
    pub total_allocations: usize,
    /// Buffers handed back, whether the pool kept them or not.
    pub total_deallocations: usize,
    /// The largest number of buffers out at once.
    pub peak_usage: usize,
    /// Buffers out now.
    pub current_usage: usize,
}

/// `n + 1`, held at `usize::MAX`.
pub open spec fn bump(n: usize) -> usize {
    if n < usize::MAX {
        (n + 1) as usize
    } else {
        n
    }
}

impl BufferPoolStats {
    /// All counters at zero.
    pub fn new() -> (r: Self)
        ensures
            r == (BufferPoolStats {
                total_allocations: 0,
                total_deallocations: 0,
                peak_usage: 0,
                current_usage: 0,
            }),
    {
        BufferPoolStats { total_allocations: 0, total_deallocations: 0, peak_usage: 0, current_usage: 0 }
    }

    /// The counters after a buffer is handed out.
    pub open spec fn after_acquire(self) -> Self {
        let current = bump(self.current_usage);
        BufferPoolStats {
            total_allocations: bump(self.total_allocations),
            total_deallocations: self.total_deallocations,
            peak_usage: if current > self.peak_usage {
                current
            } else {
                self.peak_usage
            },
            current_usage: current,
        }
    }

    /// The counters after a buffer is handed back.
    pub open spec fn after_release(self) -> Self {
        BufferPoolStats {
            total_allocations: self.total_allocations,
            total_deallocations: bump(self.total_deallocations),
            peak_usage: self.peak_usage,
            current_usage: if self.current_usage > 0 {
                (self.current_usage - 1) as usize
            } else {
                0
            },
        }
    }

    fn record_acquire(&mut self)
        ensures
            *final(self) == old(self).after_acquire(),
    {
        if self.current_usage < usize::MAX {
            self.current_usage = self.current_usage + 1;
        }
        if self.total_allocations < usize::MAX {
            self.total_allocations = self.total_allocations + 1;
        }
        if self.current_usage > self.peak_usage {
            self.peak_usage = self.current_usage;
        }
    }

    fn record_release(&mut self)
        ensures
            *final(self) == old(self).after_release(),
    {
        if self.current_usage > 0 {
            self.current_usage = self.current_usage - 1;
        }
        if self.total_deallocations < usize::MAX {
            self.total_deallocations = self.total_deallocations + 1;
        }
    }
}

impl Default for BufferPoolStats {
    fn default() -> (r: Self)
        ensures
            r == (BufferPoolStats {
                total_allocations: 0,
                total_deallocations: 0,
                peak_usage: 0,
                current_usage: 0,
            }),
    {
        BufferPoolStats::new()
    }
}

/// Every buffer in the collection is empty, and there are at most `max` of them.
pub open spec fn pooled_ok<T>(buffers: Seq<Vec<T>>, max: usize) -> bool {
    &&& buffers.len() <= max
    &&& forall|i: int| 0 <= i < buffers.len() ==> (#[trigger] buffers[i])@.len() == 0
}

/// Takes the front buffer, cleared, or a new one with `capacity` reserved.
fn take_front<T>(buffers: &mut VecDeque<Vec<T>>, capacity: usize) -> (r: Vec<T>)
    ensures
        r@.len() == 0,
        final(buffers)@ == (if old(buffers)@.len() > 0 {
            old(buffers)@.drop_first()
        } else {
            old(buffers)@
        }),
{
    match buffers.pop_front() {
        Some(mut buffer) => {
            buffer.clear();
            buffer
        },
        None => Vec::with_capacity(capacity),
    }
}

/// Clears `buffer` and puts it at the front, unless `max` buffers are there.
fn give_front<T>(buffers: &mut VecDeque<Vec<T>>, buffer: Vec<T>, max: usize) -> (r: Result<
    (),
    BufferPoolError,
>)
    ensures
        r is Ok <==> old(buffers)@.len() < max,
        r matches Err(e) ==> e == BufferPoolError::PoolFull,
        r is Ok ==> final(buffers)@.len() == old(buffers)@.len() + 1 && final(buffers)@[0]@.len()
            == 0 && final(buffers)@.drop_first() == old(buffers)@,
        r is Err ==> final(buffers)@ == old(buffers)@,
{
    if buffers.len() >= max {
        return Err(BufferPoolError::PoolFull);
    }
    let mut buffer = buffer;
    buffer.clear();
    buffers.push_front(buffer);
    assert(buffers@.drop_first() =~= old(buffers)@);
    Ok(())
}

/// A bounded pool of reusable, empty buffers of three kinds: point buffers,
/// line buffers and polygon (ring list) buffers.
pub struct CoordinateBufferPool {
    point_buffers: VecDeque<Vec<Coordinate>>,
    line_buffers: VecDeque<Vec<Line>>,
    polygon_buffers: VecDeque<Vec<Line>>,
    initial_capacity: usize,
    max_size: usize,
    stats: BufferPoolStats,
}

impl CoordinateBufferPool {
    /// The pooled point buffers, front first.
    pub closed spec fn points(&self) -> Seq<Vec<Coordinate>> {
        self.point_buffers@
    }

    /// The pooled line buffers, front first.
    pub closed spec fn lines(&self) -> Seq<Vec<Line>> {
        self.line_buffers@
    }

    /// The pooled polygon buffers, front first.
    pub closed spec fn polygons(&self) -> Seq<Vec<Line>> {
        self.polygon_buffers@
    }

    /// The capacity a newly made buffer reserves.
    pub closed spec fn capacity_hint(&self) -> usize {
        self.initial_capacity
    }

    /// The most buffers of each kind the pool keeps.
    pub closed spec fn max(&self) -> usize {
        self.max_size
    }

    /// The usage counters.
    pub closed spec fn counters(&self) -> BufferPoolStats {
        self.stats
    }

    /// Every pooled buffer is empty and no kind exceeds the bound.
    pub open spec fn wf(&self) -> bool {
        &&& pooled_ok(self.points(), self.max())
        &&& pooled_ok(self.lines(), self.max())
        &&& pooled_ok(self.polygons(), self.max())
    }

    /// The pool after a point buffer is handed out and `r` is what was handed.
    pub open spec fn point_acquired(before: Self, after: Self, r: Seq<Coordinate>) -> bool {
        &&& r.len() == 0
        &&& after.points() == (if before.points().len() > 0 {
            before.points().drop_first()
        } else {
            before.points()
        })
        &&& after.lines() == before.lines()
        &&& after.polygons() == before.polygons()
        &&& after.capacity_hint() == before.capacity_hint()
        &&& after.max() == before.max()
        &&& after.counters() == before.counters().after_acquire()
    }

    /// The pool after a point buffer is handed back; `kept` says whether the
    /// pool took it.
    pub open spec fn point_released(before: Self, after: Self, kept: bool) -> bool {
        &&& kept == (before.points().len() < before.max())
        &&& kept ==> after.points().len() == before.points().len() + 1
            && after.points()[0]@.len() == 0 && after.points().drop_first() == before.points()
        &&& !kept ==> after.points() == before.points()
        &&& after.lines() == before.lines()
        &&& after.polygons() == before.polygons()
        &&& after.capacity_hint() == before.capacity_hint()
        &&& after.max() == before.max()
        &&& after.counters() == before.counters().after_release()
    }

    /// An empty pool; new buffers reserve `initial_capacity` and at most
    /// `max_size` buffers of each kind are kept.
    pub fn new(initial_capacity: usize, max_size: usize) -> (r: Self)
        ensures
            r.wf(),
            r.points().len() == 0,
            r.lines().len() == 0,
            r.polygons().len() == 0,
            r.capacity_hint() == initial_capacity,
            r.max() == max_size,
            r.counters().total_allocations == 0 && r.counters().total_deallocations == 0 && r.counters().peak_usage == 0 && r.counters().current_usage == 0,
    {
        CoordinateBufferPool {
            point_buffers: VecDeque::new(),
            line_buffers: VecDeque::new(),
            polygon_buffers: VecDeque::new(),
            initial_capacity,
            max_size,
            stats: BufferPoolStats::new(),
        }
    }

    /// The number of pooled point buffers.
    pub fn point_buffer_count(&self) -> (r: usize)
        ensures
            r == self.points().len(),
    {
        self.point_buffers.len()
    }

    /// The number of pooled line buffers.
    pub fn line_buffer_count(&self) -> (r: usize)
        ensures
            r == self.lines().len(),
    {
        self.line_buffers.len()
    }

    /// The number of pooled polygon buffers.
    pub fn polygon_buffer_count(&self) -> (r: usize)
        ensures
            r == self.polygons().len(),
    {
        self.polygon_buffers.len()
    }

    /// An empty point buffer: the front pooled one, cleared, or a new one.
    pub fn get_point_buffer(&mut self) -> (r: Vec<Coordinate>)
        requires
            old(self).wf(),
        ensures
            final(self).wf(),
            Self::point_acquired(*old(self), *final(self), r@),
    {
        let r = take_front(&mut self.point_buffers, self.initial_capacity);
        self.stats.record_acquire();
        r
    }

    /// Hands a point buffer back: it is cleared and put at the front, or the
    /// call fails with `PoolFull` when the pool already keeps its maximum.
    pub fn return_point_buffer(&mut self, buffer: Vec<Coordinate>) -> (r: Result<(), BufferPoolError>)
        requires
            old(self).wf(),
        ensures
            final(self).wf(),
            Self::point_released(*old(self), *final(self), r is Ok),
            r matches Err(e) ==> e == BufferPoolError::PoolFull,
    {
        let r = give_front(&mut self.point_buffers, buffer, self.max_size);
        self.stats.record_release();
        proof {
            if r is Ok {
                assert forall|i: int| 0 <= i < self.point_buffers@.len() implies (
                #[trigger] self.point_buffers@[i])@.len() == 0 by {
                    if i > 0 {
                        assert(self.point_buffers@[i] == self.point_buffers@.drop_first()[i - 1]);
                    }
                }
            }
        }
        r
    }

    /// An empty line buffer: the front pooled one, cleared, or a new one.
    pub fn get_line_buffer(&mut self) -> (r: Vec<Line>)
        requires
            old(self).wf(),
        ensures
            final(self).wf(),
            r@.len() == 0,
            final(self).lines() == (if old(self).lines().len() > 0 {
                old(self).lines().drop_first()
            } else {
                old(self).lines()
            }),
            final(self).points() == old(self).points(),
            final(self).polygons() == old(self).polygons(),
            final(self).capacity_hint() == old(self).capacity_hint(),
            final(self).max() == old(self).max(),
            final(self).counters() == old(self).counters().after_acquire(),
    {
        let r = take_front(&mut self.line_buffers, self.initial_capacity);
        self.stats.record_acquire();
        r
    }

    /// Hands a line buffer back, as [`CoordinateBufferPool::return_point_buffer`].
    pub fn return_line_buffer(&mut self, buffer: Vec<Line>) -> (r: Result<(), BufferPoolError>)
        requires
            old(self).wf(),
        ensures
            final(self).wf(),
            r is Ok <==> old(self).lines().len() < old(self).max(),
            r matches Err(e) ==> e == BufferPoolError::PoolFull,
            r is Ok ==> final(self).lines().len() == old(self).lines().len() + 1
                && final(self).lines().drop_first() == old(self).lines(),
            r is Err ==> final(self).lines() == old(self).lines(),
            final(self).points() == old(self).points(),
            final(self).polygons() == old(self).polygons(),
            final(self).capacity_hint() == old(self).capacity_hint(),
            final(self).max() == old(self).max(),
            final(self).counters() == old(self).counters().after_release(),
    {
        let r = give_front(&mut self.line_buffers, buffer, self.max_size);
        self.stats.record_release();
        proof {
            if r is Ok {
                assert forall|i: int| 0 <= i < self.line_buffers@.len() implies (
                #[trigger] self.line_buffers@[i])@.len() == 0 by {
                    if i > 0 {
                        assert(self.line_buffers@[i] == self.line_buffers@.drop_first()[i - 1]);
                    }
                }
            }
        }
        r
    }

    /// An empty polygon buffer: the front pooled one, cleared, or a new one.
    pub fn get_polygon_buffer(&mut self) -> (r: Vec<Line>)
        requires
            old(self).wf(),
        ensures
            final(self).wf(),
            r@.len() == 0,
            final(self).polygons() == (if old(self).polygons().len() > 0 {
                old(self).polygons().drop_first()
            } else {
                old(self).polygons()
            }),
            final(self).points() == old(self).points(),
            final(self).lines() == old(self).lines(),
            final(self).capacity_hint() == old(self).capacity_hint(),
            final(self).max() == old(self).max(),
            final(self).counters() == old(self).counters().after_acquire(),
    {
        let r = take_front(&mut self.polygon_buffers, self.initial_capacity);
        self.stats.record_acquire();
        r
    }

    /// Hands a polygon buffer back, as [`CoordinateBufferPool::return_point_buffer`].
    pub fn return_polygon_buffer(&mut self, buffer: Vec<Line>) -> (r: Result<(), BufferPoolError>)
        requires
            old(self).wf(),
        ensures
            final(self).wf(),
            r is Ok <==> old(self).polygons().len() < old(self).max(),
            r matches Err(e) ==> e == BufferPoolError::PoolFull,
            r is Ok ==> final(self).polygons().len() == old(self).polygons().len() + 1
                && final(self).polygons().drop_first() == old(self).polygons(),
            r is Err ==> final(self).polygons() == old(self).polygons(),
            final(self).points() == old(self).points(),
            final(self).lines() == old(self).lines(),
            final(self).capacity_hint() == old(self).capacity_hint(),
            final(self).max() == old(self).max(),
            final(self).counters() == old(self).counters().after_release(),
    {
        let r = give_front(&mut self.polygon_buffers, buffer, self.max_size);
        self.stats.record_release();
        proof {
            if r is Ok {
                assert forall|i: int| 0 <= i < self.polygon_buffers@.len() implies (
                #[trigger] self.polygon_buffers@[i])@.len() == 0 by {
                    if i > 0 {
                        assert(self.polygon_buffers@[i] == self.polygon_buffers@.drop_first()[i - 1]);
                    }
                }
            }
        }
        r
    }

    /// Drops every pooled buffer; the bound, the capacity and the counters stay.
    pub fn clear(&mut self)
        ensures
            final(self).wf(),
            final(self).points().len() == 0,
            final(self).lines().len() == 0,
            final(self).polygons().len() == 0,
            final(self).capacity_hint() == old(self).capacity_hint(),
            final(self).max() == old(self).max(),
            final(self).counters() == old(self).counters(),
    {
        self.point_buffers.clear();
        self.line_buffers.clear();
        self.polygon_buffers.clear();
    }

    /// The usage counters.
    pub fn stats(&self) -> (r: BufferPoolStats)
        ensures
            r == self.counters(),
    {
        self.stats
    }
}

/// A point buffer handed back to the pool and then taken again comes back
/// empty, and the pool holds the same buffers as before the two calls.
pub proof fn lemma_return_then_get_point_buffer(
    start: CoordinateBufferPool,
    returned: CoordinateBufferPool,
    taken: CoordinateBufferPool,
    buffer: Seq<Coordinate>,
)
    requires
        CoordinateBufferPool::point_released(start, returned, true),
        CoordinateBufferPool::point_acquired(returned, taken, buffer),
    ensures
        buffer.len() == 0,
        taken.points() == start.points(),
        taken.lines() == start.lines(),
        taken.polygons() == start.polygons(),
        taken.max() == start.max(),
{
}

} // verus!
