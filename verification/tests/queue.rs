//! Behavior of the bounded ring queue.

use jeanne::mpmc::Q64;
use jeanne::twitter::TweetType;

/// After exactly 64 successful enqueues with no dequeues, the next enqueue
/// fails and returns its argument unchanged; after exactly one dequeue,
/// exactly one more enqueue succeeds.
#[test]
fn full_drain_cycle() {
    let mut q: Q64<u64> = Q64::new();
    for v in 0..64u64 {
        assert_eq!(q.enqueue(v), Ok(()));
    }
    assert_eq!(q.enqueue(999), Err(999));
    assert_eq!(q.enqueue(1000), Err(1000));
    assert_eq!(q.dequeue(), Some(0));
    assert_eq!(q.enqueue(64), Ok(()));
    assert_eq!(q.enqueue(65), Err(65));
}

/// 64 enqueues followed by 64 dequeues yield the items in exact original
/// insertion order.
#[test]
fn sequential_round_trip() {
    let mut q: Q64<u64> = Q64::new();
    for v in 0..64u64 {
        assert_eq!(q.enqueue(v * 7), Ok(()));
    }
    for v in 0..64u64 {
        assert_eq!(q.dequeue(), Some(v * 7));
    }
    assert_eq!(q.dequeue(), None);
}

#[test]
fn dequeue_on_empty_returns_none() {
    let mut q: Q64<String> = Q64::new();
    assert_eq!(q.dequeue(), None);
    assert_eq!(q.enqueue("a".to_string()), Ok(()));
    assert_eq!(q.dequeue(), Some("a".to_string()));
    assert_eq!(q.dequeue(), None);
    assert_eq!(q.dequeue(), None);
}

/// The multiset of values successfully dequeued equals the multiset of
/// values successfully enqueued: no loss, no duplication, duplicates kept
/// apart.
#[test]
fn multiset_conservation() {
    let mut q: Q64<u64> = Q64::new();
    let mut accepted: Vec<u64> = Vec::new();
    let mut dequeued: Vec<u64> = Vec::new();
    // interleave enqueues (with repeated values) and dequeues
    let ops: [(bool, u64); 12] = [
        (true, 5),
        (true, 5),
        (false, 0),
        (true, 3),
        (false, 0),
        (false, 0),
        (false, 0),
        (true, 5),
        (true, 8),
        (false, 0),
        (false, 0),
        (false, 0),
    ];
    for (is_enq, v) in ops {
        if is_enq {
            if q.enqueue(v).is_ok() {
                accepted.push(v);
            }
        } else if let Some(x) = q.dequeue() {
            dequeued.push(x);
        }
    }
    // drain what is left
    while let Some(x) = q.dequeue() {
        dequeued.push(x);
    }
    let mut a = accepted.clone();
    let mut d = dequeued.clone();
    a.sort_unstable();
    d.sort_unstable();
    assert_eq!(a, d);
    assert_eq!(a, vec![3, 5, 5, 5, 8]);
}

/// A producer's `a` enqueued before its `b` is dequeued no later than `b`.
#[test]
fn per_producer_fifo() {
    let mut q: Q64<u64> = Q64::new();
    q.enqueue(100).unwrap(); // a
    q.enqueue(7).unwrap();
    q.enqueue(200).unwrap(); // b
    q.enqueue(9).unwrap();
    let mut order: Vec<u64> = Vec::new();
    while let Some(x) = q.dequeue() {
        order.push(x);
    }
    let pos_a = order.iter().position(|&x| x == 100).unwrap();
    let pos_b = order.iter().position(|&x| x == 200).unwrap();
    assert!(pos_a < pos_b);
    assert_eq!(order, vec![100, 7, 200, 9]);
}

/// The cursors wrap around many times without confusing slot generations.
#[test]
fn wraparound_generations() {
    let mut q: Q64<u64> = Q64::new();
    for v in 0..1000u64 {
        assert_eq!(q.enqueue(v), Ok(()));
        assert_eq!(q.dequeue(), Some(v));
    }
    assert_eq!(q.dequeue(), None);
    // wrap while holding a partial load
    for v in 0..30u64 {
        assert_eq!(q.enqueue(v), Ok(()));
    }
    for round in 0..100u64 {
        assert_eq!(q.enqueue(30 + round), Ok(()));
        assert_eq!(q.dequeue(), Some(round));
    }
    for v in 100..130u64 {
        assert_eq!(q.dequeue(), Some(v));
    }
    assert_eq!(q.dequeue(), None);
}

/// The queue carries the buffered-tweet payload the bot stores.
#[test]
fn buffered_tweet_payload() {
    let mut q: Q64<(u64, String, TweetType)> = Q64::new();
    assert_eq!(
        q.enqueue((42, "sazanek".to_string(), TweetType::NazeBoku)),
        Ok(())
    );
    let (id, name, typ) = q.dequeue().unwrap();
    assert_eq!(id, 42);
    assert_eq!(name, "sazanek");
    assert!(matches!(typ, TweetType::NazeBoku));
    assert_eq!(q.dequeue(), None);
}
