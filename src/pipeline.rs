//! The pipeline context: one bounded queue and one pending batch per record
//! kind, the startup coordinator, and the assembly of batches for flushing.
//! Callers serialise access (one lock around the context); blocking, timing
//! and the store round-trips happen outside.
use vstd::prelude::*;
use crate::batch::flush_due;
use crate::bytes::{contains_key, copy_bytes};
use crate::error::IngestError;
use crate::index::{IndexConfig, category_rows, derive_index_entries, owner_rows, rows_of};
use crate::lane::{AccountLane, Lane};
use crate::queue::offer;
use crate::record::{
    AccountUpdate,
    BlockMetadataRecord,
    SecondaryIndexEntry,
    SlotStatusUpdate,
    TransactionRecord,
};
use crate::retry::RetryPolicy;
use crate::selector::key_set;
use crate::table::{enumerates, upsert_all};

verus! {

/// The settings the pipeline is built from.
#[derive(Clone, Copy, Debug, PartialEq, Eq, Structural)]
pub struct PipelineConfig {
    /// Capacity of each record kind's queue.
    pub queue_capacity: usize,
    /// Number of records at which a batch is due.
    pub batch_size: usize,
    /// Time after the last flush at which a non-empty batch is due.
    pub idle_timeout_ms: u64,
    pub worker_count: usize,
    pub index: IndexConfig,
    pub retry: RetryPolicy,
}

/// Records a queue holds before producers wait.
pub const DEFAULT_QUEUE_CAPACITY: usize = 40960;

/// Records at which a batch is due.
pub const DEFAULT_BATCH_SIZE: usize = 10;

pub const DEFAULT_IDLE_TIMEOUT_MS: u64 = 1000;

pub const DEFAULT_WORKER_COUNT: usize = 100;

pub const DEFAULT_MAX_ATTEMPTS: u32 = 5;

pub const DEFAULT_BASE_BACKOFF_MS: u64 = 100;

pub const DEFAULT_MAX_BACKOFF_MS: u64 = 10000;

impl Default for PipelineConfig {
    fn default() -> (r: PipelineConfig)
        ensures
            r.queue_capacity == DEFAULT_QUEUE_CAPACITY,
            r.batch_size == DEFAULT_BATCH_SIZE,
            r.idle_timeout_ms == DEFAULT_IDLE_TIMEOUT_MS,
            r.worker_count == DEFAULT_WORKER_COUNT,
            r.index == (IndexConfig { index_owner: false, index_category: false }),
            r.retry == (RetryPolicy {
                panic_on_error: false,
                max_attempts: DEFAULT_MAX_ATTEMPTS,
                base_backoff_ms: DEFAULT_BASE_BACKOFF_MS,
                max_backoff_ms: DEFAULT_MAX_BACKOFF_MS,
            }),
            r.is_valid(),
    {
        PipelineConfig {
            queue_capacity: DEFAULT_QUEUE_CAPACITY,
            batch_size: DEFAULT_BATCH_SIZE,
            idle_timeout_ms: DEFAULT_IDLE_TIMEOUT_MS,
            worker_count: DEFAULT_WORKER_COUNT,
            index: IndexConfig { index_owner: false, index_category: false },
            retry: RetryPolicy {
                panic_on_error: false,
                max_attempts: DEFAULT_MAX_ATTEMPTS,
                base_backoff_ms: DEFAULT_BASE_BACKOFF_MS,
                max_backoff_ms: DEFAULT_MAX_BACKOFF_MS,
            },
        }
    }
}

impl PipelineConfig {
    pub open spec fn is_valid(&self) -> bool {
        &&& self.queue_capacity > 0
        &&& self.batch_size > 0
        &&& self.worker_count > 0
        &&& self.retry.max_attempts > 0
        &&& self.retry.base_backoff_ms <= self.retry.max_backoff_ms
    }

    /// Checks the settings; a bad one is a configuration error.
    pub fn validate(&self) -> (r: Result<(), IngestError>)
        ensures
            r is Ok <==> self.is_valid(),
            r matches Err(e) ==> e == IngestError::ConfigurationError,
    {
        if self.queue_capacity == 0 || self.batch_size == 0 || self.worker_count == 0
            || self.retry.max_attempts == 0 || self.retry.base_backoff_ms
            > self.retry.max_backoff_ms {
            Err(IngestError::ConfigurationError)
        } else {
            Ok(())
        }
    }
}

/// Startup replays existing state; steady state streams live updates. The
/// change from the first to the second happens once and is final.
#[derive(Clone, Copy, Debug, PartialEq, Eq, Structural)]
pub enum Mode {
    Startup,
    SteadyState,
}

/// How an accepted account update was classified.
#[derive(Clone, Copy, Debug, PartialEq, Eq, Structural)]
pub enum Origin {
    /// The first update of its key seen during startup replay.
    ReplayFirst,
    /// A further update of a key already seen during startup replay.
    ReplayRepeat,
    /// An update received in steady state.
    Live,
}

/// A deduplicated account batch and the index entries derived from it. The
/// rows are written first; the index entries only after the rows succeeded.
#[derive(Clone, Debug)]
pub struct AccountFlush {
    pub rows: Vec<AccountUpdate>,
    pub owner_index: Vec<SecondaryIndexEntry>,
    pub category_index: Vec<SecondaryIndexEntry>,
}

impl AccountFlush {
    /// The index entries are those derived from the rows under `index`.
    pub open spec fn derived_under(&self, index: IndexConfig) -> bool {
        &&& rows_of(self.owner_index@) == (if index.index_owner {
            owner_rows(self.rows@)
        } else {
            Seq::empty()
        })
        &&& rows_of(self.category_index@) == (if index.index_category {
            category_rows(self.rows@)
        } else {
            Seq::empty()
        })
    }
}

/// The batches taken for one flush, one per record kind (possibly empty).
#[derive(Clone, Debug)]
pub struct FlushWork {
    pub accounts: AccountFlush,
    pub slots: Vec<SlotStatusUpdate>,
    pub transactions: Vec<TransactionRecord>,
    pub blocks: Vec<BlockMetadataRecord>,
}

pub struct Pipeline {
    config: PipelineConfig,
    mode: Mode,
    /// Identity keys seen during startup replay.
    startup_seen: Vec<Vec<u8>>,
    accounts: AccountLane,
    slots: Lane<SlotStatusUpdate>,
    transactions: Lane<TransactionRecord>,
    blocks: Lane<BlockMetadataRecord>,
    dropped_batches: u64,
}

/// How an account update accepted in `mode`, with `seen` the keys seen
/// during startup so far, is classified.
pub open spec fn origin_of(mode: Mode, seen: Set<Seq<u8>>, key: Seq<u8>) -> Origin {
    if mode == Mode::SteadyState {
        Origin::Live
    } else if seen.contains(key) {
        Origin::ReplayRepeat
    } else {
        Origin::ReplayFirst
    }
}

impl Pipeline {
    pub closed spec fn wf(&self) -> bool {
        &&& self.config.is_valid()
        &&& self.accounts.wf()
        &&& self.slots.wf()
        &&& self.transactions.wf()
        &&& self.blocks.wf()
        &&& self.accounts.capacity() == self.config.queue_capacity
        &&& self.slots.capacity() == self.config.queue_capacity
        &&& self.transactions.capacity() == self.config.queue_capacity
        &&& self.blocks.capacity() == self.config.queue_capacity
        &&& self.mode == Mode::SteadyState ==> self.startup_seen@.len() == 0
    }

    pub closed spec fn spec_config(&self) -> PipelineConfig {
        self.config
    }

    pub closed spec fn spec_mode(&self) -> Mode {
        self.mode
    }

    /// Identity keys seen during startup replay.
    pub closed spec fn startup_keys(&self) -> Set<Seq<u8>> {
        key_set(self.startup_seen@)
    }

    /// Accepted account updates not yet taken for a flush, oldest first.
    pub closed spec fn pending_accounts(&self) -> Seq<AccountUpdate> {
        self.accounts.pending()
    }

    /// Account updates accepted but not yet staged into their batch.
    pub closed spec fn queued_accounts(&self) -> Seq<AccountUpdate> {
        self.accounts.queued()
    }

    pub closed spec fn pending_slots(&self) -> Seq<SlotStatusUpdate> {
        self.slots.pending()
    }

    pub closed spec fn queued_slots(&self) -> Seq<SlotStatusUpdate> {
        self.slots.queued()
    }

    pub closed spec fn pending_transactions(&self) -> Seq<TransactionRecord> {
        self.transactions.pending()
    }

    pub closed spec fn queued_transactions(&self) -> Seq<TransactionRecord> {
        self.transactions.queued()
    }

    pub closed spec fn pending_blocks(&self) -> Seq<BlockMetadataRecord> {
        self.blocks.pending()
    }

    pub closed spec fn queued_blocks(&self) -> Seq<BlockMetadataRecord> {
        self.blocks.queued()
    }

    /// Times of the last flush of each kind: accounts, slots, transactions, blocks.
    pub closed spec fn last_flushes(&self) -> (nat, nat, nat, nat) {
        (
            self.accounts.last_flush(),
            self.slots.last_flush(),
            self.transactions.last_flush(),
            self.blocks.last_flush(),
        )
    }

    pub closed spec fn spec_dropped_batches(&self) -> nat {
        self.dropped_batches as nat
    }

    /// Nothing accepted is left untaken.
    pub open spec fn is_drained(&self) -> bool {
        &&& self.pending_accounts().len() == 0
        &&& self.pending_slots().len() == 0
        &&& self.pending_transactions().len() == 0
        &&& self.pending_blocks().len() == 0
    }

    /// Builds an empty pipeline in startup mode, or reports a configuration
    /// error before anything runs.
    pub fn new(config: PipelineConfig, now_ms: u64) -> (r: Result<Pipeline, IngestError>)
        ensures
            r is Ok <==> config.is_valid(),
            r matches Err(e) ==> e == IngestError::ConfigurationError,
            r matches Ok(p) ==> {
                &&& p.wf()
                &&& p.spec_config() == config
                &&& p.spec_mode() == Mode::Startup
                &&& p.startup_keys().is_empty()
                &&& p.is_drained()
                &&& p.last_flushes() == (now_ms as nat, now_ms as nat, now_ms as nat, now_ms as nat)
                &&& p.spec_dropped_batches() == 0
            },
    {
        match config.validate() {
            Err(e) => Err(e),
            Ok(()) => {
                let p = Pipeline {
                    config,
                    mode: Mode::Startup,
                    startup_seen: Vec::new(),
                    accounts: AccountLane::new(config.queue_capacity, now_ms),
                    slots: Lane::new(config.queue_capacity, now_ms),
                    transactions: Lane::new(config.queue_capacity, now_ms),
                    blocks: Lane::new(config.queue_capacity, now_ms),
                    dropped_batches: 0,
                };
                assert(p.startup_keys() =~= Set::empty());
                Ok(p)
            },
        }
    }

    pub fn config(&self) -> (r: PipelineConfig)
        ensures
            r == self.spec_config(),
    {
        self.config
    }

    pub fn mode(&self) -> (r: Mode)
        ensures
            r == self.spec_mode(),
    {
        self.mode
    }

    pub fn dropped_batches(&self) -> (r: u64)
        ensures
            r == self.spec_dropped_batches(),
    {
        self.dropped_batches
    }

    /// Counts a batch that was given up.
    pub fn record_dropped_batch(&mut self)
        ensures
            final(self).spec_dropped_batches() == if old(self).spec_dropped_batches() < u64::MAX {
                old(self).spec_dropped_batches() + 1
            } else {
                old(self).spec_dropped_batches()
            },
            final(self).wf() == old(self).wf(),
            final(self).spec_mode() == old(self).spec_mode(),
            final(self).spec_config() == old(self).spec_config(),
            final(self).startup_keys() == old(self).startup_keys(),
            final(self).pending_accounts() == old(self).pending_accounts(),
            final(self).pending_slots() == old(self).pending_slots(),
            final(self).pending_transactions() == old(self).pending_transactions(),
            final(self).pending_blocks() == old(self).pending_blocks(),
            final(self).last_flushes() == old(self).last_flushes(),
    {
        if self.dropped_batches < u64::MAX {
            self.dropped_batches = self.dropped_batches + 1;
        }
    }

    /// Accepts an account update unless its queue is full, in which case the
    /// update is handed back and nothing changes: the producer waits and
    /// offers it again. During startup the update's key is remembered.
    pub fn on_account_update(&mut self, u: AccountUpdate) -> (r: Result<Origin, AccountUpdate>)
        requires
            old(self).wf(),
        ensures
            final(self).wf(),
            match offer(old(self).queued_accounts(), old(self).spec_config().queue_capacity as nat, u) {
                None => r == Err::<Origin, AccountUpdate>(u) && *final(self) == *old(self),
                Some(_) => {
                    &&& r == Ok::<Origin, AccountUpdate>(
                        origin_of(old(self).spec_mode(), old(self).startup_keys(), u.key@),
                    )
                    &&& final(self).pending_accounts() == old(self).pending_accounts().push(u)
                    &&& final(self).queued_accounts() == old(self).queued_accounts().push(u)
                    &&& final(self).startup_keys() == if old(self).spec_mode() == Mode::Startup {
                        old(self).startup_keys().insert(u.key@)
                    } else {
                        old(self).startup_keys()
                    }
                    &&& final(self).spec_mode() == old(self).spec_mode()
                    &&& final(self).spec_config() == old(self).spec_config()
                    &&& final(self).pending_slots() == old(self).pending_slots()
                    &&& final(self).pending_transactions() == old(self).pending_transactions()
                    &&& final(self).pending_blocks() == old(self).pending_blocks()
                    &&& final(self).last_flushes() == old(self).last_flushes()
                    &&& final(self).spec_dropped_batches() == old(self).spec_dropped_batches()
                },
            },
    {
        if self.accounts.is_full() {
            return Err(u);
        }
        let origin = match self.mode {
            Mode::SteadyState => Origin::Live,
            Mode::Startup => {
                if contains_key(&self.startup_seen, u.key.as_slice()) {
                    Origin::ReplayRepeat
                } else {
                    let ghost before = self.startup_seen@;
                    self.startup_seen.push(copy_bytes(&u.key));
                    assert forall|b: Seq<u8>| #[trigger] key_set(self.startup_seen@).contains(b)
                        == key_set(before).insert(u.key@).contains(b) by {
                        if key_set(before).contains(b) {
                            let j = choose|j: int| 0 <= j < before.len() && (#[trigger] before[j])@ == b;
                            assert(self.startup_seen@[j] == before[j]);
                        }
                        if key_set(self.startup_seen@).contains(b) && b != u.key@ {
                            let j = choose|j: int|
                                0 <= j < self.startup_seen@.len() && (#[trigger] self.startup_seen@[j])@
                                    == b;
                            assert(j < before.len());
                            assert(self.startup_seen@[j] == before[j]);
                        }
                        if b == u.key@ {
                            assert(self.startup_seen@[before.len() as int]@ == b);
                        }
                    }
                    assert(key_set(self.startup_seen@) =~= key_set(before).insert(u.key@));
                    Origin::ReplayFirst
                }
            },
        };
        proof {
            if self.mode == Mode::Startup && old(self).startup_keys().contains(u.key@) {
                assert(key_set(self.startup_seen@) =~= key_set(old(self).startup_seen@).insert(u.key@));
            }
        }
        self.accounts.submit(u);
        Ok(origin)
    }

    /// Accepts a slot status change unless its queue is full, in which case it is handed
    /// back and nothing changes.
    pub fn on_slot_status(&mut self, x: SlotStatusUpdate) -> (r: Result<(), SlotStatusUpdate>)
        requires
            old(self).wf(),
        ensures
            final(self).wf(),
            match offer(old(self).queued_slots(), old(self).spec_config().queue_capacity as nat, x) {
                None => r == Err::<(), SlotStatusUpdate>(x) && *final(self) == *old(self),
                Some(_) => {
                    &&& r is Ok
                    &&& final(self).pending_slots() == old(self).pending_slots().push(x)
                    &&& final(self).queued_slots() == old(self).queued_slots().push(x)
                    &&& final(self).spec_mode() == old(self).spec_mode()
                    &&& final(self).spec_config() == old(self).spec_config()
                    &&& final(self).startup_keys() == old(self).startup_keys()
                    &&& final(self).pending_accounts() == old(self).pending_accounts()
                    &&& final(self).pending_transactions() == old(self).pending_transactions()
                    &&& final(self).pending_blocks() == old(self).pending_blocks()
                    &&& final(self).last_flushes() == old(self).last_flushes()
                    &&& final(self).spec_dropped_batches() == old(self).spec_dropped_batches()
                },
            },
    {
        self.slots.submit(x)
    }

    /// Accepts a transaction unless its queue is full, in which case it is handed
    /// back and nothing changes.
    pub fn on_transaction(&mut self, x: TransactionRecord) -> (r: Result<(), TransactionRecord>)
        requires
            old(self).wf(),
        ensures
            final(self).wf(),
            match offer(old(self).queued_transactions(), old(self).spec_config().queue_capacity as nat, x) {
                None => r == Err::<(), TransactionRecord>(x) && *final(self) == *old(self),
                Some(_) => {
                    &&& r is Ok
                    &&& final(self).pending_transactions() == old(self).pending_transactions().push(x)
                    &&& final(self).queued_transactions() == old(self).queued_transactions().push(x)
                    &&& final(self).spec_mode() == old(self).spec_mode()
                    &&& final(self).spec_config() == old(self).spec_config()
                    &&& final(self).startup_keys() == old(self).startup_keys()
                    &&& final(self).pending_accounts() == old(self).pending_accounts()
                    &&& final(self).pending_slots() == old(self).pending_slots()
                    &&& final(self).pending_blocks() == old(self).pending_blocks()
                    &&& final(self).last_flushes() == old(self).last_flushes()
                    &&& final(self).spec_dropped_batches() == old(self).spec_dropped_batches()
                },
            },
    {
        self.transactions.submit(x)
    }

    /// Accepts a block's metadata unless its queue is full, in which case it is handed
    /// back and nothing changes.
    pub fn on_block_metadata(&mut self, x: BlockMetadataRecord) -> (r: Result<(), BlockMetadataRecord>)
        requires
            old(self).wf(),
        ensures
            final(self).wf(),
            match offer(old(self).queued_blocks(), old(self).spec_config().queue_capacity as nat, x) {
                None => r == Err::<(), BlockMetadataRecord>(x) && *final(self) == *old(self),
                Some(_) => {
                    &&& r is Ok
                    &&& final(self).pending_blocks() == old(self).pending_blocks().push(x)
                    &&& final(self).queued_blocks() == old(self).queued_blocks().push(x)
                    &&& final(self).spec_mode() == old(self).spec_mode()
                    &&& final(self).spec_config() == old(self).spec_config()
                    &&& final(self).startup_keys() == old(self).startup_keys()
                    &&& final(self).pending_accounts() == old(self).pending_accounts()
                    &&& final(self).pending_slots() == old(self).pending_slots()
                    &&& final(self).pending_transactions() == old(self).pending_transactions()
                    &&& final(self).last_flushes() == old(self).last_flushes()
                    &&& final(self).spec_dropped_batches() == old(self).spec_dropped_batches()
                },
            },
    {
        self.blocks.submit(x)
    }

    fn account_flush(&self, rows: Vec<AccountUpdate>) -> (r: AccountFlush)
        ensures
            r.rows@ == rows@,
            r.derived_under(self.config.index),
    {
        let (owner_index, category_index) = derive_index_entries(&rows, self.config.index);
        AccountFlush { rows, owner_index, category_index }
    }

    /// Stages every queue into its batch, then takes each batch that is due
    /// at `now_ms` (see `flush_due`); a batch that is not due stays pending.
    pub fn take_due(&mut self, now_ms: u64) -> (r: FlushWork)
        requires
            old(self).wf(),
        ensures
            final(self).wf(),
            final(self).spec_mode() == old(self).spec_mode(),
            final(self).spec_config() == old(self).spec_config(),
            final(self).startup_keys() == old(self).startup_keys(),
            final(self).spec_dropped_batches() == old(self).spec_dropped_batches(),
            final(self).queued_accounts().len() == 0,
            final(self).queued_slots().len() == 0,
            final(self).queued_transactions().len() == 0,
            final(self).queued_blocks().len() == 0,
            r.accounts.derived_under(old(self).spec_config().index),
            ({
                let c = old(self).spec_config();
                let last = old(self).last_flushes();
                let due_a = flush_due(
                    upsert_all(Map::empty(), old(self).pending_accounts()).len(),
                    c.batch_size as nat,
                    c.idle_timeout_ms as nat,
                    last.0,
                    now_ms as nat,
                );
                let due_s = flush_due(
                    old(self).pending_slots().len(),
                    c.batch_size as nat,
                    c.idle_timeout_ms as nat,
                    last.1,
                    now_ms as nat,
                );
                let due_t = flush_due(
                    old(self).pending_transactions().len(),
                    c.batch_size as nat,
                    c.idle_timeout_ms as nat,
                    last.2,
                    now_ms as nat,
                );
                let due_b = flush_due(
                    old(self).pending_blocks().len(),
                    c.batch_size as nat,
                    c.idle_timeout_ms as nat,
                    last.3,
                    now_ms as nat,
                );
                &&& takes_accounts(
                    due_a,
                    old(self).pending_accounts(),
                    r.accounts.rows@,
                    final(self).pending_accounts(),
                )
                &&& takes(due_s, old(self).pending_slots(), r.slots@, final(self).pending_slots())
                &&& takes(
                    due_t,
                    old(self).pending_transactions(),
                    r.transactions@,
                    final(self).pending_transactions(),
                )
                &&& takes(due_b, old(self).pending_blocks(), r.blocks@, final(self).pending_blocks())
                &&& final(self).last_flushes() == (
                    flushed_at(due_a, last.0, now_ms),
                    flushed_at(due_s, last.1, now_ms),
                    flushed_at(due_t, last.2, now_ms),
                    flushed_at(due_b, last.3, now_ms),
                )
            }),
    {
        let c = self.config;
        let rows = self.accounts.take_if_due(c.batch_size, c.idle_timeout_ms, now_ms);
        let slots = self.slots.take_if_due(c.batch_size, c.idle_timeout_ms, now_ms);
        let transactions = self.transactions.take_if_due(c.batch_size, c.idle_timeout_ms, now_ms);
        let blocks = self.blocks.take_if_due(c.batch_size, c.idle_timeout_ms, now_ms);
        let accounts = self.account_flush(rows);
        FlushWork { accounts, slots, transactions, blocks }
    }

    /// Takes every accepted record of every kind, as shutdown does before the
    /// workers stop.
    pub fn take_all(&mut self, now_ms: u64) -> (r: FlushWork)
        requires
            old(self).wf(),
        ensures
            final(self).wf(),
            final(self).spec_mode() == old(self).spec_mode(),
            final(self).spec_config() == old(self).spec_config(),
            final(self).startup_keys() == old(self).startup_keys(),
            final(self).spec_dropped_batches() == old(self).spec_dropped_batches(),
            final(self).is_drained(),
            final(self).queued_accounts().len() == 0,
            final(self).queued_slots().len() == 0,
            final(self).queued_transactions().len() == 0,
            final(self).queued_blocks().len() == 0,
            final(self).last_flushes() == (now_ms as nat, now_ms as nat, now_ms as nat, now_ms as nat),
            enumerates(r.accounts.rows@, upsert_all(Map::empty(), old(self).pending_accounts())),
            r.accounts.derived_under(old(self).spec_config().index),
            r.slots@ == old(self).pending_slots(),
            r.transactions@ == old(self).pending_transactions(),
            r.blocks@ == old(self).pending_blocks(),
    {
        let rows = self.accounts.take_all(now_ms);
        let slots = self.slots.take_all(now_ms);
        let transactions = self.transactions.take_all(now_ms);
        let blocks = self.blocks.take_all(now_ms);
        let accounts = self.account_flush(rows);
        FlushWork { accounts, slots, transactions, blocks }
    }

    /// The end of startup replay: takes every pending record of every kind
    /// for one synchronous flush, forgets the keys seen during startup and
    /// enters steady state. Nothing accepted afterwards can be in the
    /// returned batches, and nothing accepted before is left behind, so no
    /// later flush reaches the store ahead of this one.
    pub fn on_startup_complete(&mut self, now_ms: u64) -> (r: FlushWork)
        requires
            old(self).wf(),
        ensures
            final(self).wf(),
            final(self).spec_mode() == Mode::SteadyState,
            final(self).startup_keys().is_empty(),
            final(self).spec_config() == old(self).spec_config(),
            final(self).spec_dropped_batches() == old(self).spec_dropped_batches(),
            final(self).is_drained(),
            final(self).queued_accounts().len() == 0,
            final(self).queued_slots().len() == 0,
            final(self).queued_transactions().len() == 0,
            final(self).queued_blocks().len() == 0,
            final(self).last_flushes() == (now_ms as nat, now_ms as nat, now_ms as nat, now_ms as nat),
            enumerates(r.accounts.rows@, upsert_all(Map::empty(), old(self).pending_accounts())),
            r.accounts.derived_under(old(self).spec_config().index),
            r.slots@ == old(self).pending_slots(),
            r.transactions@ == old(self).pending_transactions(),
            r.blocks@ == old(self).pending_blocks(),
    {
        let r = self.take_all(now_ms);
        self.startup_seen = Vec::new();
        self.mode = Mode::SteadyState;
        assert(self.startup_keys() =~= Set::empty());
        r
    }
}

/// What `take_due` does to an account batch: takes it whole, one row per key,
/// when due; leaves it pending otherwise.
pub open spec fn takes_accounts(
    due: bool,
    before: Seq<AccountUpdate>,
    rows: Seq<AccountUpdate>,
    after: Seq<AccountUpdate>,
) -> bool {
    if due {
        enumerates(rows, upsert_all(Map::empty(), before)) && after.len() == 0
    } else {
        rows.len() == 0 && after == before
    }
}

/// What `take_due` does to an append-only batch: takes it whole, in arrival
/// order, when due; leaves it pending otherwise.
pub open spec fn takes<T>(due: bool, before: Seq<T>, taken: Seq<T>, after: Seq<T>) -> bool {
    if due {
        taken == before && after.len() == 0
    } else {
        taken.len() == 0 && after == before
    }
}

pub open spec fn flushed_at(due: bool, last: nat, now_ms: u64) -> nat {
    if due {
        now_ms as nat
    } else {
        last
    }
}

} // verus!
