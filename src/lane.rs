//! A lane is one record kind's queue together with its pending batch and the
//! time of its last flush. Records move from the queue into the batch in
//! order and leave the batch only when it is taken whole.
use vstd::prelude::*;
use crate::batch::{AccountBatch, RecordBatch, flush_due, should_flush};
use crate::queue::{BoundedQueue, offer};
use crate::record::AccountUpdate;
use crate::table::{enumerates, upsert_all};

verus! {

/// A lane for an append-only record kind.
pub struct Lane<T> {
    queue: BoundedQueue<T>,
    batch: RecordBatch<T>,
    last_flush_ms: u64,
}

impl<T> Lane<T> {
    pub closed spec fn wf(&self) -> bool {
        self.queue.wf()
    }

    pub closed spec fn capacity(&self) -> nat {
        self.queue.spec_capacity()
    }

    /// Accepted records not yet taken, oldest first.
    pub closed spec fn pending(&self) -> Seq<T> {
        self.batch@ + self.queue@
    }

    /// Accepted records not yet staged into the batch.
    pub closed spec fn queued(&self) -> Seq<T> {
        self.queue@
    }

    pub closed spec fn last_flush(&self) -> nat {
        self.last_flush_ms as nat
    }

    pub fn new(capacity: usize, now_ms: u64) -> (r: Self)
        ensures
            r.wf(),
            r.capacity() == capacity,
            r.pending() == Seq::<T>::empty(),
            r.queued() == Seq::<T>::empty(),
            r.last_flush() == now_ms,
    {
        let r = Lane { queue: BoundedQueue::new(capacity), batch: RecordBatch::new(), last_flush_ms: now_ms };
        assert(r.pending() =~= Seq::<T>::empty());
        r
    }

    /// Accepts a record if the queue has room; otherwise hands it back and
    /// changes nothing.
    pub fn submit(&mut self, x: T) -> (r: Result<(), T>)
        requires
            old(self).wf(),
        ensures
            final(self).wf(),
            final(self).capacity() == old(self).capacity(),
            final(self).last_flush() == old(self).last_flush(),
            match offer(old(self).queued(), old(self).capacity(), x) {
                Some(q) => r is Ok && final(self).queued() == q && final(self).pending() == old(
                    self,
                ).pending().push(x),
                None => r == Err::<(), T>(x) && *final(self) == *old(self),
            },
    {
        if self.queue.is_full() {
            return Err(x);
        }
        let r = self.queue.try_submit(x);
        assert(self.pending() =~= old(self).pending().push(x));
        r
    }

    /// Moves every queued record into the batch.
    pub fn stage(&mut self)
        requires
            old(self).wf(),
        ensures
            final(self).wf(),
            final(self).capacity() == old(self).capacity(),
            final(self).last_flush() == old(self).last_flush(),
            final(self).pending() == old(self).pending(),
            final(self).queued() == Seq::<T>::empty(),
    {
        let mut items = self.queue.drain();
        let ghost b0 = self.batch@;
        let ghost q0 = items@;
        let mut i: usize = 0;
        let n = items.len();
        while items.len() > 0
            invariant
                self.queue.wf(),
                self.queue@ == Seq::<T>::empty(),
                self.queue.spec_capacity() == old(self).capacity(),
                self.last_flush_ms == old(self).last_flush_ms,
                i + items@.len() == q0.len(),
                n == q0.len(),
                items@ == q0.subrange(i as int, q0.len() as int),
                self.batch@ == b0 + q0.subrange(0, i as int),
            decreases items@.len(),
        {
            let x = items.remove(0);
            self.batch.add(x);
            assert(b0 + q0.subrange(0, i + 1) =~= (b0 + q0.subrange(0, i as int)).push(x));
            i = i + 1;
        }
        assert(q0.subrange(0, q0.len() as int) =~= q0);
        assert(self.pending() =~= old(self).pending());
    }

    /// Stages the queue, then takes the batch if it is due.
    pub fn take_if_due(&mut self, batch_size: usize, idle_timeout_ms: u64, now_ms: u64) -> (r: Vec<T>)
        requires
            old(self).wf(),
        ensures
            final(self).wf(),
            final(self).capacity() == old(self).capacity(),
            final(self).queued() == Seq::<T>::empty(),
            if flush_due(
                old(self).pending().len(),
                batch_size as nat,
                idle_timeout_ms as nat,
                old(self).last_flush(),
                now_ms as nat,
            ) {
                &&& r@ == old(self).pending()
                &&& final(self).pending() == Seq::<T>::empty()
                &&& final(self).last_flush() == now_ms
            } else {
                &&& r@ == Seq::<T>::empty()
                &&& final(self).pending() == old(self).pending()
                &&& final(self).last_flush() == old(self).last_flush()
            },
    {
        self.stage();
        if should_flush(self.batch.len(), batch_size, idle_timeout_ms, self.last_flush_ms, now_ms) {
            self.take_all(now_ms)
        } else {
            Vec::new()
        }
    }

    /// Takes every accepted record, staged or queued.
    pub fn take_all(&mut self, now_ms: u64) -> (r: Vec<T>)
        requires
            old(self).wf(),
        ensures
            final(self).wf(),
            final(self).capacity() == old(self).capacity(),
            final(self).queued() == Seq::<T>::empty(),
            r@ == old(self).pending(),
            final(self).pending() == Seq::<T>::empty(),
            final(self).last_flush() == now_ms,
    {
        self.stage();
        let r = self.batch.take();
        self.last_flush_ms = now_ms;
        assert(self.pending() =~= Seq::<T>::empty());
        assert(r@ =~= old(self).pending());
        r
    }
}

/// The lane for account updates, whose batch is deduplicated by identity key.
pub struct AccountLane {
    queue: BoundedQueue<AccountUpdate>,
    batch: AccountBatch,
    last_flush_ms: u64,
}

impl AccountLane {
    pub closed spec fn wf(&self) -> bool {
        self.queue.wf() && self.batch.wf()
    }

    pub closed spec fn capacity(&self) -> nat {
        self.queue.spec_capacity()
    }

    pub closed spec fn pending(&self) -> Seq<AccountUpdate> {
        self.batch.window() + self.queue@
    }

    pub closed spec fn queued(&self) -> Seq<AccountUpdate> {
        self.queue@
    }

    pub closed spec fn last_flush(&self) -> nat {
        self.last_flush_ms as nat
    }

    pub fn new(capacity: usize, now_ms: u64) -> (r: Self)
        ensures
            r.wf(),
            r.capacity() == capacity,
            r.pending() == Seq::<AccountUpdate>::empty(),
            r.queued() == Seq::<AccountUpdate>::empty(),
            r.last_flush() == now_ms,
    {
        let r = AccountLane { queue: BoundedQueue::new(capacity), batch: AccountBatch::new(), last_flush_ms: now_ms };
        assert(r.pending() =~= Seq::<AccountUpdate>::empty());
        r
    }

    pub fn is_full(&self) -> (r: bool)
        requires
            self.wf(),
        ensures
            r == (self.queued().len() >= self.capacity()),
    {
        self.queue.is_full()
    }

    /// Accepts an update; the queue must have room.
    pub fn submit(&mut self, u: AccountUpdate)
        requires
            old(self).wf(),
            old(self).queued().len() < old(self).capacity(),
        ensures
            final(self).wf(),
            final(self).capacity() == old(self).capacity(),
            final(self).last_flush() == old(self).last_flush(),
            final(self).queued() == old(self).queued().push(u),
            final(self).pending() == old(self).pending().push(u),
    {
        let _ = self.queue.try_submit(u);
        assert(self.pending() =~= old(self).pending().push(u));
    }

    pub fn stage(&mut self)
        requires
            old(self).wf(),
        ensures
            final(self).wf(),
            final(self).capacity() == old(self).capacity(),
            final(self).last_flush() == old(self).last_flush(),
            final(self).pending() == old(self).pending(),
            final(self).queued() == Seq::<AccountUpdate>::empty(),
    {
        let mut items = self.queue.drain();
        let ghost w0 = self.batch.window();
        let ghost q0 = items@;
        let mut i: usize = 0;
        let n = items.len();
        while items.len() > 0
            invariant
                self.queue.wf(),
                self.batch.wf(),
                self.queue@ == Seq::<AccountUpdate>::empty(),
                self.queue.spec_capacity() == old(self).capacity(),
                self.last_flush_ms == old(self).last_flush_ms,
                i + items@.len() == q0.len(),
                n == q0.len(),
                items@ == q0.subrange(i as int, q0.len() as int),
                self.batch.window() == w0 + q0.subrange(0, i as int),
            decreases items@.len(),
        {
            let x = items.remove(0);
            let _ = self.batch.add(x);
            assert(w0 + q0.subrange(0, i + 1) =~= (w0 + q0.subrange(0, i as int)).push(x));
            i = i + 1;
        }
        assert(q0.subrange(0, q0.len() as int) =~= q0);
        assert(self.pending() =~= old(self).pending());
    }

    pub fn take_if_due(&mut self, batch_size: usize, idle_timeout_ms: u64, now_ms: u64) -> (r: Vec<
        AccountUpdate,
    >)
        requires
            old(self).wf(),
        ensures
            final(self).wf(),
            final(self).capacity() == old(self).capacity(),
            final(self).queued() == Seq::<AccountUpdate>::empty(),
            if flush_due(
                upsert_all(Map::empty(), old(self).pending()).len(),
                batch_size as nat,
                idle_timeout_ms as nat,
                old(self).last_flush(),
                now_ms as nat,
            ) {
                &&& enumerates(r@, upsert_all(Map::empty(), old(self).pending()))
                &&& final(self).pending() == Seq::<AccountUpdate>::empty()
                &&& final(self).last_flush() == now_ms
            } else {
                &&& r@ == Seq::<AccountUpdate>::empty()
                &&& final(self).pending() == old(self).pending()
                &&& final(self).last_flush() == old(self).last_flush()
            },
    {
        self.stage();
        if should_flush(self.batch.len(), batch_size, idle_timeout_ms, self.last_flush_ms, now_ms) {
            self.take_all(now_ms)
        } else {
            Vec::new()
        }
    }

    pub fn take_all(&mut self, now_ms: u64) -> (r: Vec<AccountUpdate>)
        requires
            old(self).wf(),
        ensures
            final(self).wf(),
            final(self).capacity() == old(self).capacity(),
            final(self).queued() == Seq::<AccountUpdate>::empty(),
            enumerates(r@, upsert_all(Map::empty(), old(self).pending())),
            final(self).pending() == Seq::<AccountUpdate>::empty(),
            final(self).last_flush() == now_ms,
    {
        self.stage();
        let r = self.batch.take();
        self.last_flush_ms = now_ms;
        assert(self.pending() =~= Seq::<AccountUpdate>::empty());
        r
    }
}

} // verus!
