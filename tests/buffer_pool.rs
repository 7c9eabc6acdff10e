use geo_reproject::coordinates::{Coordinate, Line};
use geo_reproject::error::BufferPoolError;
use geo_reproject::pool::{BufferPoolStats, CoordinateBufferPool};

fn one() -> Coordinate {
    Coordinate::new(1.0f64.to_bits(), 1.0f64.to_bits())
}

#[test]
fn test_buffer_pool_creation() {
    let pool = CoordinateBufferPool::new(10, 100);
    assert_eq!(pool.point_buffer_count(), 0);
    assert_eq!(pool.line_buffer_count(), 0);
}

#[test]
fn test_get_and_return_buffer() {
    let mut pool = CoordinateBufferPool::new(10, 100);

    let mut buffer = pool.get_point_buffer();
    assert_eq!(buffer.capacity(), 10);
    assert!(buffer.is_empty());

    buffer.push(one());
    buffer.push(one());
    buffer.push(one());
    buffer.push(one());

    pool.return_point_buffer(buffer).unwrap();

    let buffer = pool.get_point_buffer();
    assert_eq!(buffer.capacity(), 10);
    assert!(buffer.is_empty());
    println!("stats: {:?}", pool.stats());
}

#[test]
fn test_buffer_reuse() {
    let mut pool = CoordinateBufferPool::new(10, 100);

    let buffer1 = pool.get_point_buffer();
    pool.return_point_buffer(buffer1).unwrap();

    let buffer2 = pool.get_point_buffer();
    pool.return_point_buffer(buffer2).unwrap();

    let buffer3 = pool.get_point_buffer();
    assert_eq!(buffer3.capacity(), 10);
    println!("stats: {:?}", pool.stats());
}

#[test]
fn test_buffer_capacity_growth() {
    let mut pool = CoordinateBufferPool::new(10, 100);

    let buffer1 = pool.get_point_buffer();
    pool.return_point_buffer(buffer1).unwrap();

    let buffer2 = pool.get_point_buffer();
    assert_eq!(buffer2.capacity(), 10);
    println!("stats: {:?}", pool.stats());
}

#[test]
fn returned_buffer_comes_back_empty_with_its_capacity() {
    let mut pool = CoordinateBufferPool::new(4, 8);
    let mut buffer = pool.get_point_buffer();
    for _ in 0..100 {
        buffer.push(one());
    }
    let grown = buffer.capacity();
    assert!(grown >= 100);
    pool.return_point_buffer(buffer).unwrap();
    assert_eq!(pool.point_buffer_count(), 1);
    let again = pool.get_point_buffer();
    assert_eq!(again.len(), 0);
    assert!(again.capacity() >= grown);
    assert_eq!(pool.point_buffer_count(), 0);
}

#[test]
fn full_pool_refuses_a_buffer() {
    let mut pool = CoordinateBufferPool::new(2, 1);
    let a = pool.get_point_buffer();
    let b = pool.get_point_buffer();
    assert_eq!(pool.return_point_buffer(a), Ok(()));
    assert_eq!(pool.return_point_buffer(b), Err(BufferPoolError::PoolFull));
    assert_eq!(pool.point_buffer_count(), 1);
}

#[test]
fn zero_bound_keeps_nothing() {
    let mut pool = CoordinateBufferPool::new(2, 0);
    let lines = pool.get_line_buffer();
    assert_eq!(pool.return_line_buffer(lines), Err(BufferPoolError::PoolFull));
    let rings = pool.get_polygon_buffer();
    assert_eq!(pool.return_polygon_buffer(rings), Err(BufferPoolError::PoolFull));
    assert_eq!(pool.line_buffer_count(), 0);
    assert_eq!(pool.polygon_buffer_count(), 0);
}

#[test]
fn line_and_polygon_buffers_are_pooled_separately() {
    let mut pool = CoordinateBufferPool::new(3, 5);
    let mut lines = pool.get_line_buffer();
    lines.push(Line::new(vec![one()]));
    assert_eq!(pool.return_line_buffer(lines), Ok(()));
    let rings = pool.get_polygon_buffer();
    assert_eq!(pool.return_polygon_buffer(rings), Ok(()));
    assert_eq!(pool.line_buffer_count(), 1);
    assert_eq!(pool.polygon_buffer_count(), 1);
    assert_eq!(pool.point_buffer_count(), 0);
    assert!(pool.get_line_buffer().is_empty());
    assert_eq!(pool.line_buffer_count(), 0);
}

#[test]
fn stats_count_buffers_out_and_back() {
    let mut pool = CoordinateBufferPool::new(1, 1);
    let a = pool.get_point_buffer();
    let b = pool.get_line_buffer();
    let c = pool.get_point_buffer();
    assert_eq!(
        pool.stats(),
        BufferPoolStats {
            total_allocations: 3,
            total_deallocations: 0,
            peak_usage: 3,
            current_usage: 3,
        }
    );
    pool.return_point_buffer(a).unwrap();
    pool.return_line_buffer(b).unwrap();
    assert_eq!(pool.return_point_buffer(c), Err(BufferPoolError::PoolFull));
    assert_eq!(
        pool.stats(),
        BufferPoolStats {
            total_allocations: 3,
            total_deallocations: 3,
            peak_usage: 3,
            current_usage: 0,
        }
    );
}

#[test]
fn default_stats_are_zero() {
    let s = BufferPoolStats::default();
    assert_eq!(s, BufferPoolStats::new());
    assert_eq!(s.total_allocations, 0);
    assert_eq!(s.peak_usage, 0);
}

#[test]
fn clear_drops_pooled_buffers() {
    let mut pool = CoordinateBufferPool::new(1, 4);
    let a = pool.get_point_buffer();
    let b = pool.get_line_buffer();
    let c = pool.get_polygon_buffer();
    pool.return_point_buffer(a).unwrap();
    pool.return_line_buffer(b).unwrap();
    pool.return_polygon_buffer(c).unwrap();
    let before = pool.stats();
    pool.clear();
    assert_eq!(pool.point_buffer_count(), 0);
    assert_eq!(pool.line_buffer_count(), 0);
    assert_eq!(pool.polygon_buffer_count(), 0);
    assert_eq!(pool.stats(), before);
}
