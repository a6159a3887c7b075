//! Accumulators that gather records into batches and say when a batch is due.
use vstd::prelude::*;
use crate::error::IngestError;
use crate::record::AccountUpdate;
use crate::table::{AccountTable, enumerates, upsert_all};

verus! {

/// A batch is due when it holds at least `batch_size` records, or when it
/// holds any and `idle_timeout_ms` have passed since the last flush.
pub open spec fn flush_due(
    pending: nat,
    batch_size: nat,
    idle_timeout_ms: nat,
    last_flush_ms: nat,
    now_ms: nat,
) -> bool {
    pending > 0 && (pending >= batch_size || now_ms >= last_flush_ms + idle_timeout_ms)
}

pub fn should_flush(
    pending: usize,
    batch_size: usize,
    idle_timeout_ms: u64,
    last_flush_ms: u64,
    now_ms: u64,
) -> (r: bool)
    ensures
        r == flush_due(
            pending as nat,
            batch_size as nat,
            idle_timeout_ms as nat,
            last_flush_ms as nat,
            now_ms as nat,
        ),
{
    if pending == 0 {
        return false;
    }
    if pending >= batch_size {
        return true;
    }
    now_ms >= last_flush_ms && now_ms - last_flush_ms >= idle_timeout_ms
}

/// Pending account updates, deduplicated by identity key: for each key only
/// the update with the highest `write_version` is kept.
pub struct AccountBatch {
    table: AccountTable,
    /// Every update added since the batch was last taken, in order.
    window: Ghost<Seq<AccountUpdate>>,
}

impl AccountBatch {
    pub closed spec fn wf(&self) -> bool {
        &&& self.table.wf()
        &&& self.table@ == upsert_all(Map::empty(), self.window@)
    }

    /// The updates added since the batch was last taken.
    pub closed spec fn window(&self) -> Seq<AccountUpdate> {
        self.window@
    }

    /// The deduplicated contents, by identity key.
    pub closed spec fn contents(&self) -> Map<Seq<u8>, AccountUpdate> {
        self.table@
    }

    pub fn new() -> (r: Self)
        ensures
            r.wf(),
            r.window() == Seq::<AccountUpdate>::empty(),
    {
        AccountBatch { table: AccountTable::new(), window: Ghost(Seq::empty()) }
    }

    /// Number of distinct identity keys pending.
    pub fn len(&self) -> (r: usize)
        requires
            self.wf(),
        ensures
            r == upsert_all(Map::empty(), self.window()).len(),
    {
        self.table.len()
    }

    /// Adds an update; an update older than the one pending for its key is
    /// left out of the batch, and reported.
    pub fn add(&mut self, u: AccountUpdate) -> (r: Result<(), IngestError>)
        requires
            old(self).wf(),
        ensures
            final(self).wf(),
            final(self).window() == old(self).window().push(u),
            r is Err <==> old(self).contents().contains_key(u.key@)
                && old(self).contents()[u.key@].write_version > u.write_version,
    {
        let ghost w0 = self.window@;
        let ghost w = w0.push(u);
        assert(w.drop_last() =~= w0);
        let r = self.table.upsert(u);
        self.window = Ghost(w);
        r
    }

    /// Hands out the batch, one row per identity key, and resets it to empty.
    pub fn take(&mut self) -> (r: Vec<AccountUpdate>)
        requires
            old(self).wf(),
        ensures
            final(self).wf(),
            final(self).window() == Seq::<AccountUpdate>::empty(),
            enumerates(r@, upsert_all(Map::empty(), old(self).window())),
    {
        let r = self.table.take();
        self.window = Ghost(Seq::empty());
        r
    }
}

/// Pending records of an append-only kind, in arrival order.
pub struct RecordBatch<T> {
    items: Vec<T>,
}

impl<T> View for RecordBatch<T> {
    type V = Seq<T>;

    closed spec fn view(&self) -> Seq<T> {
        self.items@
    }
}

impl<T> RecordBatch<T> {
    pub fn new() -> (r: Self)
        ensures
            r@ == Seq::<T>::empty(),
    {
        RecordBatch { items: Vec::new() }
    }

    pub fn len(&self) -> (r: usize)
        ensures
            r == self@.len(),
    {
        self.items.len()
    }

    pub fn add(&mut self, item: T)
        ensures
            final(self)@ == old(self)@.push(item),
    {
        self.items.push(item);
    }

    /// Hands out the batch in arrival order and resets it to empty.
    pub fn take(&mut self) -> (r: Vec<T>)
        ensures
            r@ == old(self)@,
            final(self)@ == Seq::<T>::empty(),
    {
        let mut r: Vec<T> = Vec::new();
        std::mem::swap(&mut r, &mut self.items);
        r
    }
}

} // verus!
