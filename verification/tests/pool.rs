use dssim_core::buffer::{appended, cleared};
use dssim_core::pool::{capacity, DssimPool};

const ELEM: usize = core::mem::size_of::<f32>();

#[test]
fn take_from_empty_allocates() {
    let mut pool = DssimPool::<f32>::new();
    let buf = pool.take(100);
    assert!(buf.capacity() >= 100);
    assert_eq!(buf.len(), 0);
}

#[test]
fn give_then_take_reuses_same_allocation() {
    let mut pool = DssimPool::<f32>::new();
    let mut buf = Vec::with_capacity(1000);
    buf.push(1.0);
    let cap = buf.capacity();
    let ptr = buf.as_ptr();
    pool.give(buf);
    assert_eq!(pool.held_bytes(), cap * ELEM);

    let reused = pool.take(1000);
    assert_eq!(reused.as_ptr(), ptr, "should reuse the same allocation");
    assert_eq!(reused.len(), 0, "buffer is cleared");
    assert!(reused.capacity() >= 1000);
    assert_eq!(pool.held_bytes(), 0, "removed from free list on take");
}

#[test]
fn take_is_best_fit() {
    let mut pool = DssimPool::<f32>::new();
    pool.give(Vec::with_capacity(1000));
    pool.give(Vec::with_capacity(100));
    // Request 50: should get the 100-capacity buffer, not the 1000 one.
    let small = pool.take(50);
    assert!(small.capacity() >= 100 && small.capacity() < 1000);
    // The 1000 buffer is still available.
    let big = pool.take(600);
    assert!(big.capacity() >= 1000);
}

#[test]
fn take_skips_too_small() {
    let mut pool = DssimPool::<f32>::new();
    pool.give(Vec::with_capacity(10));
    // Need 100; the 10-capacity buffer cannot satisfy it.
    let buf = pool.take(100);
    assert!(buf.capacity() >= 100);
    // The 10-capacity buffer is untouched.
    assert_eq!(pool.held_bytes(), 10 * ELEM);
}

#[test]
fn cap_bytes_limits_retention() {
    // Cap at 100 elements worth of bytes.
    let mut pool = DssimPool::<f32>::with_capacity_bytes(100 * ELEM);
    pool.give(Vec::with_capacity(80));
    assert_eq!(pool.held_bytes(), 80 * ELEM);
    // Adding 80 more would exceed 100.
    pool.give(Vec::with_capacity(80));
    assert_eq!(pool.held_bytes(), 80 * ELEM);
}

#[test]
fn zero_len_take_and_empty_give_are_noops() {
    let mut pool = DssimPool::<f32>::new();
    assert_eq!(pool.take(0).capacity(), 0);
    pool.give(Vec::new());
    assert_eq!(pool.held_bytes(), 0);
}

#[test]
fn zero_len_take_leaves_idle_buffers_alone() {
    let mut pool = DssimPool::<f32>::new();
    pool.give(Vec::with_capacity(10));
    assert_eq!(pool.take(0).capacity(), 0);
    assert_eq!(pool.held_bytes(), 10 * ELEM);
}

#[test]
fn a_pool_may_be_filled_to_the_last_byte() {
    let mut pool = DssimPool::<f32>::with_capacity_bytes(80 * ELEM);
    pool.give(Vec::with_capacity(80));
    assert_eq!(pool.held_bytes(), 80 * ELEM);
    pool.give(Vec::with_capacity(1));
    assert_eq!(pool.held_bytes(), 80 * ELEM);
    let mut none = DssimPool::<f32>::with_capacity_bytes(80 * ELEM - 1);
    none.give(Vec::with_capacity(80));
    assert_eq!(none.held_bytes(), 0);
}

#[test]
fn the_last_of_equal_buffers_goes_first() {
    let mut pool = DssimPool::<f32>::new();
    let first: Vec<f32> = Vec::with_capacity(64);
    let second: Vec<f32> = Vec::with_capacity(64);
    let (p1, p2) = (first.as_ptr(), second.as_ptr());
    pool.give(first);
    pool.give(second);
    assert_eq!(pool.held_bytes(), 128 * ELEM);
    assert_eq!(pool.take(64).as_ptr(), p2);
    assert_eq!(pool.held_bytes(), 64 * ELEM);
    assert_eq!(pool.take(64).as_ptr(), p1);
    assert_eq!(pool.held_bytes(), 0);
}

#[test]
fn capacity_is_counted_and_not_length() {
    let mut pool = DssimPool::<f32>::new();
    let mut buf = Vec::with_capacity(32);
    buf.push(1.0);
    pool.give(buf);
    assert_eq!(pool.held_bytes(), 32 * ELEM);
    let taken = pool.take(20);
    assert_eq!(taken.capacity(), 32);
    assert_eq!(taken.len(), 0);
}

#[test]
fn give_sized_is_told_the_capacity() {
    let mut pool = DssimPool::<f32>::new();
    let buf: Vec<f32> = Vec::with_capacity(50);
    let (cap, ptr) = (capacity(&buf), buf.as_ptr());
    assert_eq!(cap, buf.capacity());
    pool.give_sized(buf, cap);
    assert_eq!(pool.held_bytes(), cap * ELEM);
    let none: Vec<f32> = Vec::new();
    assert_eq!(capacity(&none), 0);
    pool.give_sized(none, 0);
    assert_eq!(pool.held_bytes(), cap * ELEM);
    assert_eq!(pool.take(cap).as_ptr(), ptr);
    assert_eq!(pool.held_bytes(), 0);
}

#[test]
fn cleared_keeps_the_allocation() {
    let mut buf = Vec::with_capacity(20);
    buf.push(1.5f32);
    let ptr = buf.as_ptr();
    let empty = cleared(buf);
    assert_eq!((empty.len(), empty.capacity()), (0, 20));
    assert_eq!(empty.as_ptr(), ptr);
}

#[test]
fn take_undoes_give() {
    let mut pool = DssimPool::<f32>::new();
    pool.give(Vec::with_capacity(10));
    pool.give(Vec::with_capacity(90));
    let held = pool.held_bytes();
    let mut buf = Vec::with_capacity(40);
    buf.resize(7, 2.0f32);
    let ptr = buf.as_ptr();
    pool.give(buf);
    assert_eq!(pool.held_bytes(), held + 40 * ELEM);
    let taken = pool.take(40);
    assert_eq!((taken.as_ptr(), taken.len(), taken.capacity()), (ptr, 0, 40));
    assert_eq!(pool.held_bytes(), held);
    assert_eq!(pool.take(5).capacity(), 10);
    assert_eq!(pool.take(5).capacity(), 90);
}

#[test]
fn a_roomy_pool_keeps_what_holds_samples() {
    let mut pool = DssimPool::<f32>::with_capacity_bytes(isize::MAX as usize);
    pool.give(vec![1.0, 2.0, 3.0]);
    assert_eq!(pool.held_bytes(), 3 * ELEM);
}

#[test]
fn default_keeps_a_gibibyte() {
    // Elements of 256 MiB each: the buffers are never touched.
    let mut pool = DssimPool::<[u8; 1 << 28]>::default();
    pool.give(Vec::with_capacity(4));
    assert_eq!(pool.held_bytes(), 1 << 30);
    pool.give(Vec::with_capacity(1));
    assert_eq!(pool.held_bytes(), 1 << 30);
}

#[test]
fn bytes_depend_on_the_sample_type() {
    let mut pool = DssimPool::<u64>::new();
    pool.give(Vec::with_capacity(12));
    assert_eq!(pool.held_bytes(), 12 * 8);
}

#[test]
fn appended_keeps_the_allocation_while_there_is_room() {
    let mut buf = Vec::with_capacity(8);
    buf.push(1.5f32);
    let ptr = buf.as_ptr();
    let (joined, rest) = appended(buf, vec![2.5, 3.5]);
    assert_eq!(joined, [1.5, 2.5, 3.5]);
    assert!(rest.is_empty());
    assert_eq!((joined.as_ptr(), joined.capacity()), (ptr, 8));
}
