use meshly_core::ratelimit::{chunk_len, new_handle, Bucket, Grant, RateLimitHandle};

/// Copies `total` bytes in reads of 16 KiB under a handle, on a clock of its own.
/// Returns the nanoseconds that went by.
fn copy_throttled(total: u64, handle: &RateLimitHandle, start_ns: u64) -> u64 {
    let mut now = start_ns;
    let mut bucket = Bucket::new(handle.bytes_per_sec, now);
    let mut left = total;
    while left > 0 {
        let read = left.min(16 * 1024);
        let mut part = read;
        while part > 0 {
            let n = chunk_len(handle.bytes_per_sec, part);
            assert!(1 <= n && n <= part);
            while let Grant::Wait(ns) = bucket.acquire(handle.bytes_per_sec, now, n) {
                now += ns as u64;
            }
            part -= n;
        }
        left -= read;
    }
    now - start_ns
}

const SECOND: u64 = 1_000_000_000;

#[test]
fn copy_throttled_enforces_bandwidth_cap() {
    let handle = new_handle(100 * 1024);
    let secs = copy_throttled(1024 * 1024, &handle, 5) as f64 / SECOND as f64;
    assert!(secs > 8.0, "throttled copy finished too fast ({secs:.2}s)");
    assert!(secs < 20.0, "throttled copy took too long ({secs:.2}s)");
}

#[test]
fn copy_throttled_zero_means_unlimited() {
    let handle = new_handle(0);
    assert_eq!(copy_throttled(256 * 1024, &handle, 0), 0);
}

#[test]
fn dynamic_rate_update_takes_effect() {
    let mut handle = new_handle(50 * 1024);
    let slow = copy_throttled(100 * 1024, &handle, 0);
    assert!(slow > 800_000_000, "100 KiB at 50 KiB/s should take ~1s, took {slow}");
    handle.bytes_per_sec = 0;
    assert!(copy_throttled(100 * 1024, &handle, slow) < 500_000_000);
}

#[test]
fn small_caps_still_let_data_through() {
    let handle = new_handle(1000);
    let ns = copy_throttled(16 * 1024, &handle, 0);
    // The first 1000 bytes are free, the rest comes at the cap.
    assert!(ns >= 15_384 * (SECOND / 1000), "{ns}");
    assert!(ns <= 16 * SECOND, "{ns}");
}

#[test]
fn a_new_bucket_holds_one_second() {
    let mut b = Bucket::new(10, 0);
    assert!(matches!(b.acquire(10, 0, 10), Grant::Now));
    match b.acquire(10, 0, 1) {
        Grant::Wait(ns) => assert_eq!(ns, 100_000_000),
        Grant::Now => panic!("the bucket is empty"),
    }
    assert!(matches!(b.acquire(10, 100_000_000, 1), Grant::Now));
    // A long pause fills it with one second's worth and no more.
    assert!(matches!(b.acquire(10, 100 * SECOND, 10), Grant::Now));
    assert!(matches!(b.acquire(10, 100 * SECOND, 1), Grant::Wait(_)));
}

#[test]
fn waits_are_at_least_a_millisecond() {
    let mut b = Bucket::new(1_000_000, 0);
    assert!(matches!(b.acquire(1_000_000, 0, 1_000_000), Grant::Now));
    match b.acquire(1_000_000, 0, 1) {
        Grant::Wait(ns) => assert_eq!(ns, 1_000_000),
        Grant::Now => panic!("the bucket is empty"),
    }
}

#[test]
fn requests_for_nothing_are_free() {
    let mut b = Bucket::new(1, 0);
    assert!(matches!(b.acquire(1, 0, 1), Grant::Now));
    assert!(matches!(b.acquire(1, 0, 0), Grant::Now));
    assert!(matches!(b.acquire(0, 0, 1000), Grant::Now));
    assert_eq!(chunk_len(0, 77), 77);
    assert_eq!(chunk_len(50, 77), 50);
    assert_eq!(chunk_len(100, 77), 77);
}
