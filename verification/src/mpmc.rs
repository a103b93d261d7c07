//! Bounded MPMC ring queue with 64 slots.
//!
//! Each slot carries a generation counter (its *sequence number*) beside the
//! stored value. Two wrapping cursors index into the slot array modulo the
//! capacity; a slot's sequence number tells whether the slot is writable by
//! the producer generation `pos` (sequence == pos) or readable by the consumer
//! generation `pos` (sequence == pos + 1). The cursors wrap at 256, a multiple
//! of the capacity, so the slot index and the expected sequence stay in step
//! across wraparounds.

use vstd::prelude::*;

verus! {

use vstd::arithmetic::div_mod::{
    lemma_fundamental_div_mod,
    lemma_mod_multiples_vanish,
    lemma_small_mod,
    lemma_sub_mod_noop,
};

/// A wrapped value, shifted by `j`, lands on the same slot index and the same
/// wrapped sum as the unwrapped value: the cursors wrap at 256, a multiple of
/// the capacity.
proof fn lemma_wrap_norm(x: int, j: int)
    ensures
        (x % 256 + j) % 64 == (x + j) % 64,
        (x % 256 + j) % 256 == (x + j) % 256,
{
    let q = x / 256;
    lemma_fundamental_div_mod(x, 256);
    assert(x % 256 + j == 64 * (-4 * q) + (x + j)) by {
        assert(x % 256 == x - 256 * q);
    }
    lemma_mod_multiples_vanish(-4 * q, x + j, 64);
    lemma_mod_multiples_vanish(-q, x + j, 256);
}

/// Positions whose offsets differ by less than the capacity occupy distinct
/// slots.
proof fn lemma_slot_distinct(a: int, x: int, y: int)
    requires
        0 <= x < y,
        y - x < 64,
    ensures
        (a + x) % 64 != (a + y) % 64,
{
    if (a + x) % 64 == (a + y) % 64 {
        lemma_sub_mod_noop(a + y, a + x, 64);
        lemma_small_mod((y - x) as nat, 64);
        assert(false);
    }
}

/// Values that differ by less than a full wrap cannot collide modulo 256.
proof fn lemma_wrap_distinct(x: int, y: int)
    requires
        0 < y - x < 256,
    ensures
        x % 256 != y % 256,
{
    if x % 256 == y % 256 {
        lemma_sub_mod_noop(y, x, 256);
        lemma_small_mod((y - x) as nat, 256);
        assert(false);
    }
}

/// The enqueue cursor sits `qlen` positions past the dequeue cursor,
/// modulo the wrap.
proof fn lemma_cursor_distance(d: int, e: int)
    ensures
        (d + (e - d) % 256) % 256 == e % 256,
{
    let q = (e - d) / 256;
    lemma_fundamental_div_mod(e - d, 256);
    assert(d + (e - d) % 256 == 256 * (-q) + e);
    lemma_mod_multiples_vanish(-q, e, 256);
}

/// One slot of the ring: an optional value and the slot's sequence number.
struct Cell<T> {
    data: Option<T>,
    sequence: u8,
}

/// MPMC queue with a capacity for 64 elements.
pub struct Q64<T> {
    buffer: Vec<Cell<T>>,
    dequeue_pos: u8,
    enqueue_pos: u8,
}

impl<T> Q64<T> {
    /// Number of live items: the wrapping distance from the dequeue cursor to
    /// the enqueue cursor.
    pub closed spec fn qlen(self) -> int {
        (self.enqueue_pos as int - self.dequeue_pos as int) % 256
    }

    /// Slot `k` positions past the dequeue cursor holds the `k`-th live item
    /// and is marked readable for that consumer generation.
    spec fn live_slot_ok(self, k: int) -> bool {
        let c = self.buffer@[(self.dequeue_pos as int + k) % 64];
        &&& c.sequence == (self.dequeue_pos as int + k + 1) % 256
        &&& c.data is Some
    }

    /// Slot `j` positions past the enqueue cursor is empty and marked
    /// writable for the producer generation that will next claim it.
    spec fn free_slot_ok(self, j: int) -> bool {
        let c = self.buffer@[(self.enqueue_pos as int + j) % 64];
        &&& c.sequence == (self.enqueue_pos as int + j) % 256
        &&& c.data is None
    }

    pub closed spec fn wf(self) -> bool {
        &&& self.buffer@.len() == 64
        &&& 0 <= self.qlen() <= 64
        &&& forall|k: int| 0 <= k < self.qlen() ==> #[trigger] self.live_slot_ok(k)
        &&& forall|j: int| 0 <= j < 64 - self.qlen() ==> #[trigger] self.free_slot_ok(j)
    }

    /// The queued items, head first.
    pub closed spec fn view(self) -> Seq<T> {
        Seq::new(
            self.qlen() as nat,
            |k: int| self.buffer@[(self.dequeue_pos as int + k) % 64].data.unwrap(),
        )
    }

    /// Creates an empty queue; slot `i` starts at sequence `i`.
    pub fn new() -> (q: Self)
        ensures
            q.wf(),
            q@ == Seq::<T>::empty(),
    {
        let mut buffer: Vec<Cell<T>> = Vec::new();
        let mut i: usize = 0;
        while i < 64
            invariant
                i <= 64,
                buffer@.len() == i,
                forall|n: int|
                    0 <= n < i ==> (#[trigger] buffer@[n]).sequence == n && buffer@[n].data is None,
            decreases 64 - i,
        {
            buffer.push(Cell { data: None, sequence: i as u8 });
            i += 1;
        }
        let q = Q64 { buffer, dequeue_pos: 0, enqueue_pos: 0 };
        proof {
            assert(q.qlen() == 0);
            assert forall|j: int| 0 <= j < 64 implies #[trigger] q.free_slot_ok(j) by {
                assert(j % 64 == j);
                assert(j % 256 == j);
            }
            assert(q@ =~= Seq::<T>::empty());
        }
        q
    }

    /// Adds an `item` to the end of the queue.
    ///
    /// Returns back the `item` if the queue is full. Never blocks: the slot
    /// addressed by the enqueue cursor either carries the cursor's own
    /// sequence number (the slot is this generation's to claim) or the queue
    /// holds a full capacity of items.
    pub fn enqueue(&mut self, item: T) -> (r: Result<(), T>)
        requires
            old(self).wf(),
        ensures
            final(self).wf(),
            old(self)@.len() < 64 ==> r is Ok && final(self)@ == old(self)@.push(item),
            old(self)@.len() == 64 ==> r is Err && r->Err_0 == item && final(self)@ == old(self)@,
            r is Ok <==> enqueue_accepts(old(self)@),
            final(self)@ == enqueue_step(old(self)@, item),
    {
        let pos = self.enqueue_pos;
        let i: usize = (pos % 64) as usize;
        let ghost d = old(self).dequeue_pos as int;
        let ghost e = old(self).enqueue_pos as int;
        let ghost len = old(self).qlen();
        proof {
            lemma_cursor_distance(d, e);
            lemma_small_mod(e as nat, 256);
            lemma_wrap_norm(d + len, 0);
            lemma_wrap_norm(e, 0);
            // the slot under the enqueue cursor is the slot `len` past the
            // dequeue cursor
            assert(e % 64 == (d + len) % 64);
        }
        let seq_no = self.buffer[i].sequence;
        if seq_no == pos {
            proof {
                // a full queue marks this slot readable, with a sequence one
                // short of a full wrap away from the cursor: no match
                if len == 64 {
                    assert(self.live_slot_ok(0));
                    lemma_wrap_distinct(d + 1, d + 64);
                    lemma_small_mod((d + 64) as nat % 256, 256);
                    assert(seq_no == (d + 1) % 256);
                    assert(pos == (d + 64) % 256) by {
                        lemma_wrap_norm(d + len, 0);
                    }
                    assert(false);
                }
                assert(self.free_slot_ok(0));
            }
            let next_seq = wrap_inc(pos);
            let slot = &mut self.buffer[i];
            slot.data = Some(item);
            slot.sequence = next_seq;
            self.enqueue_pos = wrap_inc(pos);
            proof {
                let post = *self;
                let pre = *old(self);
                assert(post.qlen() == len + 1) by {
                    lemma_fundamental_div_mod(e - d, 256);
                    lemma_wrap_norm(e + 1, -d);
                    lemma_mod_multiples_vanish((e - d) / 256, len + 1, 256);
                    lemma_small_mod((len + 1) as nat, 256);
                }
                assert forall|k: int| 0 <= k < post.qlen() implies #[trigger] post.live_slot_ok(
                    k,
                ) by {
                    if k < len {
                        assert(pre.live_slot_ok(k));
                        lemma_slot_distinct(d, k, len);
                    } else {
                        // the claimed slot: freshly written value and sequence
                        lemma_wrap_norm(e, 1);
                        assert((d + k + 1) % 256 == (e + 1) % 256) by {
                            lemma_wrap_norm(d + len, 1);
                        }
                    }
                }
                assert forall|j: int| 0 <= j < 64 - post.qlen() implies #[trigger] post.free_slot_ok(
                    j,
                ) by {
                    assert(pre.free_slot_ok(j + 1));
                    lemma_slot_distinct(e, 0, j + 1);
                    lemma_wrap_norm(e + 1, j);
                }
                assert(post@ =~= pre@.push(item)) by {
                    assert forall|k: int| 0 <= k < len implies post@[k] == pre@[k] by {
                        assert(pre.live_slot_ok(k));
                        lemma_slot_distinct(d, k, len);
                    }
                    assert(post@[len as int] == item);
                }
            }
            Ok(())
        } else {
            proof {
                if len < 64 {
                    assert(self.free_slot_ok(0));
                    assert(false);
                }
                assert(self@ =~= old(self)@);
            }
            Err(item)
        }
    }

    /// Returns the item at the front of the queue, or `None` if the queue is
    /// empty.
    ///
    /// Never blocks: the slot addressed by the dequeue cursor either carries
    /// the sequence number published by the producer of this generation (the
    /// item is ready) or the queue is empty.
    pub fn dequeue(&mut self) -> (r: Option<T>)
        requires
            old(self).wf(),
        ensures
            final(self).wf(),
            old(self)@.len() == 0 ==> r is None && final(self)@ == old(self)@,
            old(self)@.len() > 0 ==> r == Some(old(self)@[0]) && final(self)@ == old(self)@.drop_first(),
            r is Some <==> old(self)@.len() > 0,
            final(self)@ == dequeue_step(old(self)@),
    {
        let pos = self.dequeue_pos;
        let i: usize = (pos % 64) as usize;
        let ghost d = old(self).dequeue_pos as int;
        let ghost e = old(self).enqueue_pos as int;
        let ghost len = old(self).qlen();
        proof {
            lemma_cursor_distance(d, e);
            lemma_small_mod(e as nat, 256);
            lemma_small_mod(d as nat, 256);
            lemma_wrap_norm(d + len, 0);
            lemma_wrap_norm(e, 0);
        }
        let ready_seq = wrap_inc(pos);
        let seq_no = self.buffer[i].sequence;
        if seq_no == ready_seq {
            proof {
                // an empty queue leaves this slot writable, carrying the
                // cursor's own sequence: no match
                if len == 0 {
                    assert(self.free_slot_ok(0));
                    assert(d == e) by {
                        lemma_fundamental_div_mod(e - d, 256);
                    }
                    lemma_wrap_distinct(d, d + 1);
                    assert(false);
                }
                assert(self.live_slot_ok(0));
                assert(d % 64 == i as int);
            }
            let freed_seq = wrap_add_cap(pos);
            let slot = &mut self.buffer[i];
            let mut taken: Option<T> = None;
            core::mem::swap(&mut slot.data, &mut taken);
            slot.sequence = freed_seq;
            self.dequeue_pos = wrap_inc(pos);
            proof {
                let post = *self;
                let pre = *old(self);
                assert(post.qlen() == len - 1) by {
                    lemma_fundamental_div_mod(e - d, 256);
                    lemma_wrap_norm(d + 1, -d - 1);
                    assert((e - (d + 1) % 256) % 256 == (e - d - 1) % 256) by {
                        lemma_sub_mod_noop(e, d + 1, 256);
                        lemma_sub_mod_noop(e, (d + 1) % 256, 256);
                        lemma_small_mod(((d + 1) % 256) as nat, 256);
                    }
                    lemma_mod_multiples_vanish((e - d) / 256, len - 1, 256);
                    lemma_small_mod((len - 1) as nat, 256);
                }
                assert forall|k: int| 0 <= k < post.qlen() implies #[trigger] post.live_slot_ok(
                    k,
                ) by {
                    assert(pre.live_slot_ok(k + 1));
                    lemma_slot_distinct(d, 0, k + 1);
                    lemma_wrap_norm(d + 1, k);
                    lemma_wrap_norm(d + 1, k + 1);
                }
                assert forall|j: int| 0 <= j < 64 - post.qlen() implies #[trigger] post.free_slot_ok(
                    j,
                ) by {
                    if j < 64 - len {
                        assert(pre.free_slot_ok(j));
                        // live offset of this slot relative to the dequeue
                        // cursor is len + j, within a capacity of the cursor
                        lemma_wrap_norm(d + len, j);
                        lemma_wrap_norm(e, j);
                        assert((e + j) % 64 == (d + (len + j)) % 64);
                        if len + j < 64 {
                            lemma_slot_distinct(d, 0, len + j);
                        }
                    } else {
                        // the freed slot: one full wrap past the old cursor
                        assert((e + j) % 64 == (d + 64) % 64) by {
                            lemma_wrap_norm(d + len, j);
                        }
                        assert((e + j) % 256 == (d + 64) % 256) by {
                            lemma_wrap_norm(d + len, j);
                        }
                        assert(d % 64 == (d + 64) % 64) by {
                            lemma_mod_multiples_vanish(1, d, 64);
                        }
                    }
                }
                assert(post@ =~= pre@.drop_first()) by {
                    assert forall|k: int| 0 <= k < len - 1 implies post@[k] == pre@[k + 1] by {
                        assert(pre.live_slot_ok(k + 1));
                        lemma_slot_distinct(d, 0, k + 1);
                        lemma_wrap_norm(d + 1, k);
                    }
                }
            }
            match taken {
                Some(x) => Some(x),
                None => {
                    proof {
                        assert(false);
                    }
                    None
                },
            }
        } else {
            proof {
                if len > 0 {
                    assert(self.live_slot_ok(0));
                    assert(false);
                }
                assert(self@ =~= old(self)@);
            }
            None
        }
    }
}

/// A queue call, as the replay model sees it.
pub enum QueueOp<T> {
    Enqueue(T),
    Dequeue,
}

/// The outcome of replaying a sequence of queue calls: the items still
/// queued, the items accepted by `enqueue` in call order, and the items
/// handed out by `dequeue` in call order.
pub ghost struct QueueRun<T> {
    pub contents: Seq<T>,
    pub enqueued: Seq<T>,
    pub dequeued: Seq<T>,
}

/// The queue accepts an item exactly when it is not full.
pub open spec fn enqueue_accepts<T>(s: Seq<T>) -> bool {
    s.len() < 64
}

/// What `enqueue` leaves queued.
pub open spec fn enqueue_step<T>(s: Seq<T>, item: T) -> Seq<T> {
    if enqueue_accepts(s) {
        s.push(item)
    } else {
        s
    }
}

/// What `dequeue` leaves queued.
pub open spec fn dequeue_step<T>(s: Seq<T>) -> Seq<T> {
    if s.len() > 0 {
        s.drop_first()
    } else {
        s
    }
}

/// One call replayed against a run.
pub open spec fn run_step<T>(r: QueueRun<T>, op: QueueOp<T>) -> QueueRun<T> {
    match op {
        QueueOp::Enqueue(x) => if enqueue_accepts(r.contents) {
            QueueRun {
                contents: r.contents.push(x),
                enqueued: r.enqueued.push(x),
                dequeued: r.dequeued,
            }
        } else {
            r
        },
        QueueOp::Dequeue => if r.contents.len() > 0 {
            QueueRun {
                contents: r.contents.drop_first(),
                enqueued: r.enqueued,
                dequeued: r.dequeued.push(r.contents[0]),
            }
        } else {
            r
        },
    }
}

/// A sequence of calls replayed against a run.
pub open spec fn run_from<T>(r: QueueRun<T>, ops: Seq<QueueOp<T>>) -> QueueRun<T>
    decreases ops.len(),
{
    if ops.len() == 0 {
        r
    } else {
        run_from(run_step(r, ops[0]), ops.drop_first())
    }
}

/// A sequence of calls replayed against a queue that starts empty.
pub open spec fn queue_run<T>(ops: Seq<QueueOp<T>>) -> QueueRun<T> {
    run_from(
        QueueRun { contents: Seq::empty(), enqueued: Seq::empty(), dequeued: Seq::empty() },
        ops,
    )
}

/// The accepted enqueues are exactly the dequeued items followed by the items
/// still queued.
pub open spec fn conserved<T>(r: QueueRun<T>) -> bool {
    r.enqueued == r.dequeued + r.contents
}

proof fn lemma_run_step_conserves<T>(r: QueueRun<T>, op: QueueOp<T>)
    requires
        conserved(r),
    ensures
        conserved(run_step(r, op)),
{
    match op {
        QueueOp::Enqueue(x) => {
            if enqueue_accepts(r.contents) {
                assert(r.dequeued + r.contents.push(x) =~= (r.dequeued + r.contents).push(x));
            }
        },
        QueueOp::Dequeue => {
            if r.contents.len() > 0 {
                assert(r.dequeued.push(r.contents[0]) + r.contents.drop_first() =~= r.dequeued
                    + r.contents);
            }
        },
    }
}

proof fn lemma_run_from_conserves<T>(r: QueueRun<T>, ops: Seq<QueueOp<T>>)
    requires
        conserved(r),
    ensures
        conserved(run_from(r, ops)),
    decreases ops.len(),
{
    if ops.len() > 0 {
        lemma_run_step_conserves(r, ops[0]);
        lemma_run_from_conserves(run_step(r, ops[0]), ops.drop_first());
    }
}

/// Multiset conservation: over any sequence of queue calls on an initially
/// empty queue, the multiset of items handed out by `dequeue`, together with
/// the items still queued, equals the multiset of items accepted by
/// `enqueue` — no loss, no duplication.
pub proof fn lemma_multiset_conservation<T>(ops: Seq<QueueOp<T>>)
    ensures
        queue_run(ops).enqueued == queue_run(ops).dequeued + queue_run(ops).contents,
        queue_run(ops).enqueued.to_multiset() == queue_run(ops).dequeued.to_multiset().add(
            queue_run(ops).contents.to_multiset(),
        ),
{
    let r = queue_run(ops);
    let init = QueueRun::<T> {
        contents: Seq::empty(),
        enqueued: Seq::empty(),
        dequeued: Seq::empty(),
    };
    assert(conserved(init)) by {
        assert(init.dequeued + init.contents =~= init.enqueued);
    }
    lemma_run_from_conserves(init, ops);
    vstd::seq_lib::lemma_multiset_commutative(r.dequeued, r.contents);
}

/// FIFO order: over any sequence of queue calls on an initially empty queue,
/// the items handed out by `dequeue` are exactly the oldest accepted
/// enqueues, in acceptance order. In particular, of two items accepted in
/// some order, neither is dequeued before an item accepted earlier: one
/// caller's `a` enqueued before its `b` is observed no later than `b`.
pub proof fn lemma_per_producer_fifo<T>(ops: Seq<QueueOp<T>>)
    ensures
        queue_run(ops).dequeued == queue_run(ops).enqueued.take(
            queue_run(ops).dequeued.len() as int,
        ),
        queue_run(ops).contents == queue_run(ops).enqueued.skip(
            queue_run(ops).dequeued.len() as int,
        ),
{
    let r = queue_run(ops);
    lemma_multiset_conservation(ops);
    assert(r.dequeued =~= (r.dequeued + r.contents).take(r.dequeued.len() as int));
    assert(r.contents =~= (r.dequeued + r.contents).skip(r.dequeued.len() as int));
}

/// The calls that enqueue each item of `xs` in turn.
pub open spec fn enqueue_ops<T>(xs: Seq<T>) -> Seq<QueueOp<T>> {
    xs.map_values(|x: T| QueueOp::Enqueue(x))
}

/// `n` dequeue calls.
pub open spec fn dequeue_ops<T>(n: nat) -> Seq<QueueOp<T>> {
    Seq::new(n, |i: int| QueueOp::Dequeue)
}

proof fn lemma_run_from_enqueues<T>(r: QueueRun<T>, xs: Seq<T>)
    requires
        r.contents.len() + xs.len() <= 64,
    ensures
        run_from(r, enqueue_ops(xs)).contents == r.contents + xs,
        run_from(r, enqueue_ops(xs)).enqueued == r.enqueued + xs,
        run_from(r, enqueue_ops(xs)).dequeued == r.dequeued,
    decreases xs.len(),
{
    if xs.len() == 0 {
        assert(enqueue_ops(xs).len() == 0);
        assert(r.contents + xs =~= r.contents);
        assert(r.enqueued + xs =~= r.enqueued);
    } else {
        let first = xs[0];
        assert(enqueue_ops(xs)[0] == QueueOp::Enqueue(first));
        assert(enqueue_ops(xs).drop_first() =~= enqueue_ops(xs.drop_first()));
        let r1 = run_step(r, QueueOp::Enqueue(first));
        lemma_run_from_enqueues(r1, xs.drop_first());
        assert(r.contents.push(first) + xs.drop_first() =~= r.contents + xs);
        assert(r.enqueued.push(first) + xs.drop_first() =~= r.enqueued + xs);
    }
}

proof fn lemma_run_from_dequeues<T>(r: QueueRun<T>, n: nat)
    requires
        n <= r.contents.len(),
    ensures
        run_from(r, dequeue_ops::<T>(n)).contents == r.contents.skip(n as int),
        run_from(r, dequeue_ops::<T>(n)).dequeued == r.dequeued + r.contents.take(n as int),
        run_from(r, dequeue_ops::<T>(n)).enqueued == r.enqueued,
    decreases n,
{
    if n == 0 {
        assert(dequeue_ops::<T>(n).len() == 0);
        assert(r.contents.skip(0) =~= r.contents);
        assert(r.dequeued + r.contents.take(0) =~= r.dequeued);
    } else {
        assert(dequeue_ops::<T>(n)[0] == QueueOp::<T>::Dequeue);
        assert(dequeue_ops::<T>(n).drop_first() =~= dequeue_ops::<T>((n - 1) as nat));
        let r1 = run_step(r, QueueOp::<T>::Dequeue);
        lemma_run_from_dequeues(r1, (n - 1) as nat);
        assert(r.contents.drop_first().skip(n - 1) =~= r.contents.skip(n as int));
        assert(r.dequeued.push(r.contents[0]) + r.contents.drop_first().take(n - 1) =~= r.dequeued
            + r.contents.take(n as int));
    }
}

proof fn lemma_run_from_concat<T>(r: QueueRun<T>, a: Seq<QueueOp<T>>, b: Seq<QueueOp<T>>)
    ensures
        run_from(r, a + b) == run_from(run_from(r, a), b),
    decreases a.len(),
{
    if a.len() == 0 {
        assert(a + b =~= b);
    } else {
        assert((a + b)[0] == a[0]);
        assert((a + b).drop_first() =~= a.drop_first() + b);
        lemma_run_from_concat(run_step(r, a[0]), a.drop_first(), b);
    }
}

/// Strict sequential round-trip: up to a full capacity of enqueues, followed
/// by as many dequeues with no interleaving, accepts every item and yields
/// the items in exact original insertion order, leaving the queue empty.
pub proof fn lemma_sequential_round_trip<T>(xs: Seq<T>)
    requires
        xs.len() <= 64,
    ensures
        queue_run(enqueue_ops(xs) + dequeue_ops::<T>(xs.len())).enqueued == xs,
        queue_run(enqueue_ops(xs) + dequeue_ops::<T>(xs.len())).dequeued == xs,
        queue_run(enqueue_ops(xs) + dequeue_ops::<T>(xs.len())).contents == Seq::<T>::empty(),
{
    let init = QueueRun::<T> {
        contents: Seq::empty(),
        enqueued: Seq::empty(),
        dequeued: Seq::empty(),
    };
    lemma_run_from_concat(init, enqueue_ops(xs), dequeue_ops::<T>(xs.len()));
    lemma_run_from_enqueues(init, xs);
    let filled = run_from(init, enqueue_ops(xs));
    assert(filled.contents =~= xs);
    lemma_run_from_dequeues(filled, xs.len());
    assert(filled.dequeued + filled.contents.take(xs.len() as int) =~= xs);
    assert(filled.contents.skip(xs.len() as int) =~= Seq::<T>::empty());
    assert(filled.enqueued =~= xs);
}

/// Full/drain cycle: a full queue rejects the next enqueue and leaves its
/// contents unchanged; after exactly one dequeue, exactly one more enqueue
/// is accepted, after which the queue is full again.
pub proof fn lemma_full_drain_cycle<T>(s: Seq<T>, x: T, y: T)
    requires
        s.len() == 64,
    ensures
        !enqueue_accepts(s),
        enqueue_step(s, x) == s,
        enqueue_accepts(dequeue_step(s)),
        enqueue_step(dequeue_step(s), y) == dequeue_step(s).push(y),
        !enqueue_accepts(enqueue_step(dequeue_step(s), y)),
{
}

/// The successor of a wrapping cursor.
fn wrap_inc(p: u8) -> (r: u8)
    ensures
        r == (p as int + 1) % 256,
{
    if p == 255 {
        0
    } else {
        p + 1
    }
}

/// A wrapping cursor moved one full capacity ahead: the sequence that frees a
/// slot for the next wraparound generation.
fn wrap_add_cap(p: u8) -> (r: u8)
    ensures
        r == (p as int + 64) % 256,
{
    if p >= 192 {
        p - 192
    } else {
        p + 64
    }
}

} // verus!
