use mpmcbq::ring::RingBuffer;

#[test]
fn it_works() {
    let result = 2 + 2;
    assert_eq!(result, 4);
}

// A capacity request of 3 rounds the slot count up to the next power of two
// above 3 + 1, i.e. 4 slots, and `capacity()` reports the stored index mask
// 4 - 1 = 3 — not the number of fillable slots, which the fill test below
// shows is 4.
#[test]
fn capacity_reports_mask() {
    let (rb, s, r) = RingBuffer::<u64>::new(3);
    assert_eq!(rb.capacity(), 3);
    assert_eq!(s.capacity(&rb), 3);
    assert_eq!(r.capacity(&rb), 3);
}

// The registry starts at one live handle of each kind, and a registry built
// directly carries the counts it was given.
#[test]
fn registry_construction() {
    let u = mpmcbq::handles::Users::new(5, 9);
    assert_eq!(u.senders, 5);
    assert_eq!(u.receivers, 9);
    let (rb, _s, _r) = RingBuffer::<u64>::new(2);
    assert_eq!(rb.live_senders(), 1);
    assert_eq!(rb.live_receivers(), 1);
}

// With a capacity request of 3 (4 slots), four consecutive sends succeed, a
// fifth fails, and after one recv a send succeeds again.
#[test]
fn fill_and_drain_one() {
    let (mut rb, s, r) = RingBuffer::<u64>::new(3);
    assert!(s.send(&mut rb, 1));
    assert!(s.send(&mut rb, 2));
    assert!(s.send(&mut rb, 3));
    assert!(s.send(&mut rb, 4));
    assert!(!s.send(&mut rb, 5));
    assert_eq!(r.recv(&mut rb), Ok(1));
    assert!(s.send(&mut rb, 5));
}

// Single-producer/single-consumer order: values come back out in the exact
// order they went in, and the buffer reports empty afterwards.
#[test]
fn spsc_order() {
    let (mut rb, s, r) = RingBuffer::<i32>::new(3);
    assert!(s.send(&mut rb, 10));
    assert!(s.send(&mut rb, 20));
    assert!(s.send(&mut rb, 30));
    assert!(s.send(&mut rb, 40));
    assert_eq!(r.recv(&mut rb), Ok(10));
    assert_eq!(r.recv(&mut rb), Ok(20));
    assert_eq!(r.recv(&mut rb), Ok(30));
    assert_eq!(r.recv(&mut rb), Ok(40));
    assert!(r.empty(&rb));
    assert!(s.empty(&rb));
    assert!(rb.empty());
}

// A fresh buffer is empty and recv on it fails with the empty marker.
#[test]
fn fresh_buffer_is_empty() {
    let (mut rb, _s, r) = RingBuffer::<u64>::new(5);
    assert!(rb.empty());
    assert_eq!(r.recv(&mut rb), Err(false));
}

// The smallest allowed capacity request still yields two slots.
#[test]
fn capacity_one_holds_two() {
    let (mut rb, s, _r) = RingBuffer::<u8>::new(1);
    assert_eq!(rb.capacity(), 1);
    assert!(s.send(&mut rb, 7));
    assert!(s.send(&mut rb, 8));
    assert!(!s.send(&mut rb, 9));
}

// Round trip: the value a send accepts is bitwise the value the matching recv
// returns, for assorted payload types.
#[test]
fn round_trip_is_identity() {
    let (mut rb, s, r) = RingBuffer::<u64>::new(2);
    assert!(s.send(&mut rb, 0xDEAD_BEEF_0BAD_F00D));
    assert_eq!(r.recv(&mut rb), Ok(0xDEAD_BEEF_0BAD_F00D));

    let (mut rb2, s2, r2) = RingBuffer::<(u8, i64)>::new(2);
    assert!(s2.send(&mut rb2, (255, -1234567890123)));
    assert_eq!(r2.recv(&mut rb2), Ok((255, -1234567890123)));

    let (mut rb3, s3, r3) = RingBuffer::<i16>::new(2);
    assert!(s3.send(&mut rb3, -32768));
    assert_eq!(r3.recv(&mut rb3), Ok(-32768));
}

// Values sent after the cursors have gone around the ring many times still
// come back in order: the wraparound arithmetic keeps working past the first
// lap.
#[test]
fn many_laps_keep_order() {
    let (mut rb, s, r) = RingBuffer::<u64>::new(3);
    for k in 0..10_000u64 {
        assert!(s.send(&mut rb, 3 * k));
        assert_eq!(r.recv(&mut rb), Ok(3 * k));
    }
    assert!(rb.empty());
}

// Two producer roles and two consumer roles, interleaved on one thread: every
// role runs until it records its target number of successes; afterwards the
// buffer is empty and total successful sends equal total successful recvs.
#[test]
fn interleaved_roles_balance() {
    let target: u64 = 10_000;
    let (mut rb, s, r) = RingBuffer::<u64>::new(128);
    let s2 = s.clone_handle(&mut rb);
    let r2 = r.clone_handle(&mut rb);

    let mut sent = [0u64; 2];
    let mut got = [0u64; 2];
    let mut total_sent: u64 = 0;
    let mut total_got: u64 = 0;
    while sent[0] < target || sent[1] < target || got[0] < target || got[1] < target {
        for (i, h) in [&s, &s2].into_iter().enumerate() {
            if sent[i] < target && h.send(&mut rb, total_sent) {
                sent[i] += 1;
                total_sent += 1;
            }
        }
        for (i, h) in [&r, &r2].into_iter().enumerate() {
            if got[i] < target {
                if let Ok(_) = h.recv(&mut rb) {
                    got[i] += 1;
                    total_got += 1;
                }
            }
        }
    }
    assert!(rb.empty());
    assert_eq!(total_sent, 2 * target);
    assert_eq!(total_got, 2 * target);

    s2.dispose(&mut rb);
    r2.dispose(&mut rb);
    s.dispose(&mut rb);
    r.dispose(&mut rb);
    assert_eq!(rb.live_senders(), 0);
    assert_eq!(rb.live_receivers(), 0);
    rb.dispose();
}

// Cloning a handle raises the matching registry count by one; disposing a
// handle lowers it; the buffer may be disposed once both counts are zero.
#[test]
fn registry_counts_follow_handles() {
    let (mut rb, s, r) = RingBuffer::<u32>::new(4);
    assert_eq!(rb.live_senders(), 1);
    assert_eq!(rb.live_receivers(), 1);

    let s2 = s.clone_handle(&mut rb);
    let s3 = s2.clone_handle(&mut rb);
    assert_eq!(rb.live_senders(), 3);
    let r2 = r.clone_handle(&mut rb);
    assert_eq!(rb.live_receivers(), 2);

    assert!(s3.send(&mut rb, 11));
    assert_eq!(r2.recv(&mut rb), Ok(11));

    s3.dispose(&mut rb);
    s2.dispose(&mut rb);
    s.dispose(&mut rb);
    assert_eq!(rb.live_senders(), 0);
    r2.dispose(&mut rb);
    r.dispose(&mut rb);
    assert_eq!(rb.live_receivers(), 0);
    rb.dispose();
}
