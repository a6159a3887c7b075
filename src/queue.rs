//! A bounded FIFO of records of one kind. A full queue refuses a record and
//! hands it back, so the producer waits and retries instead of losing it.
use vstd::prelude::*;

verus! {

/// The queue after offering `item`: `None` when it is full and refuses it.
pub open spec fn offer<T>(items: Seq<T>, capacity: nat, item: T) -> Option<Seq<T>> {
    if items.len() < capacity {
        Some(items.push(item))
    } else {
        None
    }
}

/// Offers each of `xs` in order, with no consumer running: the queue that
/// results and the records that were refused.
pub open spec fn offer_all<T>(items: Seq<T>, capacity: nat, xs: Seq<T>) -> (Seq<T>, Seq<T>)
    decreases xs.len(),
{
    if xs.len() == 0 {
        (items, Seq::empty())
    } else {
        let (q, refused) = offer_all(items, capacity, xs.drop_last());
        match offer(q, capacity, xs.last()) {
            Some(q2) => (q2, refused),
            None => (q, refused.push(xs.last())),
        }
    }
}

pub struct BoundedQueue<T> {
    items: Vec<T>,
    capacity: usize,
}

impl<T> View for BoundedQueue<T> {
    type V = Seq<T>;

    closed spec fn view(&self) -> Seq<T> {
        self.items@
    }
}

impl<T> BoundedQueue<T> {
    pub closed spec fn spec_capacity(&self) -> nat {
        self.capacity as nat
    }

    pub closed spec fn wf(&self) -> bool {
        self.items@.len() <= self.capacity
    }

    pub fn new(capacity: usize) -> (r: Self)
        ensures
            r.wf(),
            r@ == Seq::<T>::empty(),
            r.spec_capacity() == capacity,
    {
        BoundedQueue { items: Vec::new(), capacity }
    }

    pub fn capacity(&self) -> (r: usize)
        ensures
            r == self.spec_capacity(),
    {
        self.capacity
    }

    pub fn len(&self) -> (r: usize)
        ensures
            r == self@.len(),
    {
        self.items.len()
    }

    pub fn is_full(&self) -> (r: bool)
        requires
            self.wf(),
        ensures
            r == (self@.len() >= self.spec_capacity()),
    {
        self.items.len() >= self.capacity
    }

    /// Appends `item` if there is room; otherwise hands it back unchanged.
    pub fn try_submit(&mut self, item: T) -> (r: Result<(), T>)
        requires
            old(self).wf(),
        ensures
            final(self).wf(),
            final(self).spec_capacity() == old(self).spec_capacity(),
            match offer(old(self)@, old(self).spec_capacity(), item) {
                Some(q) => r is Ok && final(self)@ == q,
                None => r == Err::<(), T>(item) && final(self)@ == old(self)@,
            },
    {
        if self.items.len() < self.capacity {
            self.items.push(item);
            Ok(())
        } else {
            Err(item)
        }
    }

    /// Removes the oldest record.
    pub fn pop(&mut self) -> (r: Option<T>)
        requires
            old(self).wf(),
        ensures
            final(self).wf(),
            final(self).spec_capacity() == old(self).spec_capacity(),
            old(self)@.len() == 0 ==> r is None && final(self)@ == old(self)@,
            old(self)@.len() > 0 ==> r == Some(old(self)@[0]) && final(self)@ == old(self)@.drop_first(),
    {
        if self.items.len() == 0 {
            None
        } else {
            Some(self.items.remove(0))
        }
    }

    /// Removes every record, oldest first.
    pub fn drain(&mut self) -> (r: Vec<T>)
        requires
            old(self).wf(),
        ensures
            final(self).wf(),
            final(self).spec_capacity() == old(self).spec_capacity(),
            final(self)@ == Seq::<T>::empty(),
            r@ == old(self)@,
    {
        let mut r: Vec<T> = Vec::new();
        std::mem::swap(&mut r, &mut self.items);
        r
    }
}

/// Backpressure law: offering records to a queue while no consumer runs
/// accepts them in order until it is full and refuses (hands back) all the
/// others, in order; nothing is dropped. Once a consumer has taken the oldest
/// record of a full queue, the next offer is accepted.
pub proof fn lemma_backpressure<T>(items: Seq<T>, capacity: nat, xs: Seq<T>)
    requires
        items.len() <= capacity,
    ensures
        ({
            let (q, refused) = offer_all(items, capacity, xs);
            let room = if xs.len() <= capacity - items.len() {
                xs.len() as int
            } else {
                capacity - items.len()
            };
            &&& q == items + xs.subrange(0, room)
            &&& refused == xs.subrange(room, xs.len() as int)
            &&& q.len() <= capacity
            &&& (q.len() == capacity && capacity > 0 ==> forall|x: T|
                offer(q.drop_first(), capacity, x) == Some(q.drop_first().push(x)))
        }),
    decreases xs.len(),
{
    if xs.len() > 0 {
        let p = xs.drop_last();
        lemma_backpressure(items, capacity, p);
        let room_p = if p.len() <= capacity - items.len() {
            p.len() as int
        } else {
            capacity - items.len()
        };
        let (q, refused) = offer_all(items, capacity, p);
        if q.len() < capacity {
            assert(items + xs.subrange(0, room_p + 1) =~= (items + p.subrange(0, room_p)).push(
                xs.last(),
            ));
            assert(refused =~= xs.subrange(room_p + 1, xs.len() as int));
        } else {
            assert(p.subrange(0, room_p) =~= xs.subrange(0, room_p));
            assert(refused.push(xs.last()) =~= xs.subrange(room_p, xs.len() as int));
        }
    } else {
        assert(items + xs.subrange(0, 0) =~= items);
        assert(xs.subrange(0, 0) =~= Seq::<T>::empty());
    }
}

} // verus!
