//! An in-memory store with the write semantics the pipeline relies on:
//! account rows are upserted by identity key with the highest
//! `write_version` winning, slot statuses only move forward, transactions and
//! blocks are inserted if absent by their unique key, and index entries are
//! written only after the account rows they point at.
use vstd::prelude::*;
use crate::bytes::bytes_eq;
use crate::index::{IndexConfig, IndexRow, category_rows, lemma_index_rows_point_into_batch, owner_rows, rows_of};
use crate::pipeline::AccountFlush;
use crate::record::{
    AccountUpdate,
    BlockMetadataRecord,
    SecondaryIndexEntry,
    SlotStatus,
    SlotStatusUpdate,
    TransactionRecord,
};
use crate::slots::{SlotTable, advance_all};
use crate::table::{AccountTable, lemma_highest_version_kept, lemma_keys_kept, upsert_all};

verus! {

/// Inserts `t` unless a transaction with its signature is already held.
pub open spec fn insert_transaction(s: Seq<TransactionRecord>, t: TransactionRecord) -> Seq<
    TransactionRecord,
> {
    if exists|i: int| 0 <= i < s.len() && (#[trigger] s[i]).signature@ == t.signature@ {
        s
    } else {
        s.push(t)
    }
}

pub open spec fn insert_transactions(s: Seq<TransactionRecord>, ts: Seq<TransactionRecord>) -> Seq<
    TransactionRecord,
>
    decreases ts.len(),
{
    if ts.len() == 0 {
        s
    } else {
        insert_transaction(insert_transactions(s, ts.drop_last()), ts.last())
    }
}

/// Inserts `b` unless a block of its slot is already held.
pub open spec fn insert_block(s: Seq<BlockMetadataRecord>, b: BlockMetadataRecord) -> Seq<
    BlockMetadataRecord,
> {
    if exists|i: int| 0 <= i < s.len() && (#[trigger] s[i]).slot == b.slot {
        s
    } else {
        s.push(b)
    }
}

pub open spec fn insert_blocks(s: Seq<BlockMetadataRecord>, bs: Seq<BlockMetadataRecord>) -> Seq<
    BlockMetadataRecord,
>
    decreases bs.len(),
{
    if bs.len() == 0 {
        s
    } else {
        insert_block(insert_blocks(s, bs.drop_last()), bs.last())
    }
}

/// Every index row points at an account row that is held.
pub open spec fn index_backed(index: Seq<IndexRow>, accounts: Map<Seq<u8>, AccountUpdate>) -> bool {
    forall|j: int| 0 <= j < index.len() ==> accounts.contains_key((#[trigger] index[j]).1)
}

pub struct MemoryStore {
    accounts: AccountTable,
    slots: SlotTable,
    transactions: Vec<TransactionRecord>,
    blocks: Vec<BlockMetadataRecord>,
    owner_index: Vec<SecondaryIndexEntry>,
    category_index: Vec<SecondaryIndexEntry>,
}

impl MemoryStore {
    pub closed spec fn wf(&self) -> bool {
        &&& self.accounts.wf()
        &&& index_backed(rows_of(self.owner_index@), self.accounts@)
        &&& index_backed(rows_of(self.category_index@), self.accounts@)
    }

    pub closed spec fn accounts_view(&self) -> Map<Seq<u8>, AccountUpdate> {
        self.accounts@
    }

    pub closed spec fn slots_view(&self) -> Map<u64, SlotStatus> {
        self.slots@
    }

    pub closed spec fn transactions_view(&self) -> Seq<TransactionRecord> {
        self.transactions@
    }

    pub closed spec fn blocks_view(&self) -> Seq<BlockMetadataRecord> {
        self.blocks@
    }

    pub closed spec fn owner_index_view(&self) -> Seq<IndexRow> {
        rows_of(self.owner_index@)
    }

    pub closed spec fn category_index_view(&self) -> Seq<IndexRow> {
        rows_of(self.category_index@)
    }

    pub fn new() -> (r: Self)
        ensures
            r.wf(),
            r.accounts_view() == Map::<Seq<u8>, AccountUpdate>::empty(),
            r.slots_view() == Map::<u64, SlotStatus>::empty(),
            r.transactions_view() == Seq::<TransactionRecord>::empty(),
            r.blocks_view() == Seq::<BlockMetadataRecord>::empty(),
            r.owner_index_view() == Seq::<IndexRow>::empty(),
            r.category_index_view() == Seq::<IndexRow>::empty(),
    {
        let r = MemoryStore {
            accounts: AccountTable::new(),
            slots: SlotTable::new(),
            transactions: Vec::new(),
            blocks: Vec::new(),
            owner_index: Vec::new(),
            category_index: Vec::new(),
        };
        assert(r.owner_index_view() =~= Seq::<IndexRow>::empty());
        assert(r.category_index_view() =~= Seq::<IndexRow>::empty());
        r
    }

    /// The account row held for an identity key.
    pub fn account(&self, key: &[u8]) -> (r: Option<&AccountUpdate>)
        requires
            self.wf(),
        ensures
            r.is_some() == self.accounts_view().contains_key(key@),
            r matches Some(u) ==> *u == self.accounts_view()[key@],
    {
        self.accounts.get(key)
    }

    pub fn account_count(&self) -> (r: usize)
        requires
            self.wf(),
        ensures
            r == self.accounts_view().len(),
    {
        self.accounts.len()
    }

    pub fn slot_status(&self, slot: u64) -> (r: Option<SlotStatus>)
        ensures
            r.is_some() == self.slots_view().contains_key(slot),
            r matches Some(st) ==> st == self.slots_view()[slot],
    {
        self.slots.status(slot)
    }

    pub fn transaction_count(&self) -> (r: usize)
        ensures
            r == self.transactions_view().len(),
    {
        self.transactions.len()
    }

    pub fn block_count(&self) -> (r: usize)
        ensures
            r == self.blocks_view().len(),
    {
        self.blocks.len()
    }

    pub fn owner_index_len(&self) -> (r: usize)
        ensures
            r == self.owner_index_view().len(),
    {
        self.owner_index.len()
    }

    pub fn category_index_len(&self) -> (r: usize)
        ensures
            r == self.category_index_view().len(),
    {
        self.category_index.len()
    }

    /// Writes an account batch: first the rows, by upsert; then, the rows
    /// being held, the index entries derived from them. Returns how many rows
    /// were discarded as older than the rows already held.
    pub fn write_accounts(&mut self, flush: AccountFlush, index: IndexConfig) -> (refused: usize)
        requires
            old(self).wf(),
            flush.derived_under(index),
        ensures
            final(self).wf(),
            final(self).accounts_view() == upsert_all(old(self).accounts_view(), flush.rows@),
            refused <= flush.rows@.len(),
            final(self).owner_index_view() == old(self).owner_index_view() + rows_of(
                flush.owner_index@,
            ),
            final(self).category_index_view() == old(self).category_index_view() + rows_of(
                flush.category_index@,
            ),
            final(self).slots_view() == old(self).slots_view(),
            final(self).transactions_view() == old(self).transactions_view(),
            final(self).blocks_view() == old(self).blocks_view(),
    {
        let AccountFlush { rows, owner_index, category_index } = flush;
        let ghost rs = rows@;
        let ghost before = self.accounts@;
        let refused = self.accounts.upsert_all(rows);
        let ghost after = self.accounts@;
        proof {
            assert forall|k: Seq<u8>| #[trigger] before.contains_key(k) implies after.contains_key(k) by {
                lemma_keys_kept(before, rs, k);
            }
            assert forall|i: int| 0 <= i < rs.len() implies after.contains_key((#[trigger] rs[i]).key@) by {
                lemma_highest_version_kept(before, rs, i);
            }
            assert forall|j: int| 0 <= j < rows_of(owner_index@).len() implies after.contains_key(
                (#[trigger] rows_of(owner_index@)[j]).1,
            ) by {
                lemma_index_rows_point_into_batch(rs, j);
                let i = choose|i: int| 0 <= i < rs.len() && (#[trigger] rs[i]).key@ == owner_rows(rs)[j].1;
            }
            assert forall|j: int| 0 <= j < rows_of(category_index@).len() implies after.contains_key(
                (#[trigger] rows_of(category_index@)[j]).1,
            ) by {
                lemma_index_rows_point_into_batch(rs, j);
                let i = choose|i: int|
                    0 <= i < rs.len() && (#[trigger] rs[i]).key@ == category_rows(rs)[j].1;
            }
        }
        append_entries(&mut self.owner_index, owner_index);
        append_entries(&mut self.category_index, category_index);
        refused
    }

    /// Applies a batch of slot status changes; returns how many were refused
    /// as regressions.
    pub fn write_slot_statuses(&mut self, batch: &Vec<SlotStatusUpdate>) -> (refused: usize)
        requires
            old(self).wf(),
        ensures
            final(self).wf(),
            final(self).slots_view() == advance_all(old(self).slots_view(), batch@),
            final(self).accounts_view() == old(self).accounts_view(),
            final(self).transactions_view() == old(self).transactions_view(),
            final(self).blocks_view() == old(self).blocks_view(),
            final(self).owner_index_view() == old(self).owner_index_view(),
            final(self).category_index_view() == old(self).category_index_view(),
    {
        self.slots.apply_all(batch)
    }

    /// Inserts the transactions whose signatures are not held yet.
    pub fn write_transactions(&mut self, batch: Vec<TransactionRecord>)
        requires
            old(self).wf(),
        ensures
            final(self).wf(),
            final(self).transactions_view() == insert_transactions(
                old(self).transactions_view(),
                batch@,
            ),
            final(self).accounts_view() == old(self).accounts_view(),
            final(self).slots_view() == old(self).slots_view(),
            final(self).blocks_view() == old(self).blocks_view(),
            final(self).owner_index_view() == old(self).owner_index_view(),
            final(self).category_index_view() == old(self).category_index_view(),
    {
        insert_all_transactions(&mut self.transactions, batch);
    }

    /// Inserts the blocks whose slots are not held yet.
    pub fn write_blocks(&mut self, batch: Vec<BlockMetadataRecord>)
        requires
            old(self).wf(),
        ensures
            final(self).wf(),
            final(self).blocks_view() == insert_blocks(old(self).blocks_view(), batch@),
            final(self).accounts_view() == old(self).accounts_view(),
            final(self).slots_view() == old(self).slots_view(),
            final(self).transactions_view() == old(self).transactions_view(),
            final(self).owner_index_view() == old(self).owner_index_view(),
            final(self).category_index_view() == old(self).category_index_view(),
    {
        insert_all_blocks(&mut self.blocks, batch);
    }
}

fn append_entries(dst: &mut Vec<SecondaryIndexEntry>, src: Vec<SecondaryIndexEntry>)
    ensures
        rows_of(final(dst)@) == rows_of(old(dst)@) + rows_of(src@),
{
    let ghost added = src@;
    let mut src = src;
    dst.append(&mut src);
    assert(rows_of(dst@) =~= rows_of(old(dst)@) + rows_of(added));
}

fn holds_signature(v: &Vec<TransactionRecord>, sig: &[u8]) -> (r: bool)
    ensures
        r == exists|i: int| 0 <= i < v@.len() && (#[trigger] v@[i]).signature@ == sig@,
{
    let mut j: usize = 0;
    while j < v.len()
        invariant
            j <= v@.len(),
            forall|k: int| 0 <= k < j ==> (#[trigger] v@[k]).signature@ != sig@,
        decreases v@.len() - j,
    {
        if bytes_eq(v[j].signature.as_slice(), sig) {
            return true;
        }
        j = j + 1;
    }
    false
}

fn insert_all_transactions(dst: &mut Vec<TransactionRecord>, batch: Vec<TransactionRecord>)
    ensures
        final(dst)@ == insert_transactions(old(dst)@, batch@),
{
    let ghost s = batch@;
    let n = batch.len();
    let mut rest = batch;
    let mut i: usize = 0;
    while rest.len() > 0
        invariant
            i + rest@.len() == s.len(),
            s.len() == n,
            rest@ == s.subrange(i as int, s.len() as int),
            dst@ == insert_transactions(old(dst)@, s.subrange(0, i as int)),
        decreases rest@.len(),
    {
        let t = rest.remove(0);
        if !holds_signature(dst, t.signature.as_slice()) {
            dst.push(t);
        }
        assert(s.subrange(0, i + 1).drop_last() == s.subrange(0, i as int));
        i = i + 1;
    }
    assert(s.subrange(0, s.len() as int) == s);
}

fn holds_block(v: &Vec<BlockMetadataRecord>, slot: u64) -> (r: bool)
    ensures
        r == exists|i: int| 0 <= i < v@.len() && (#[trigger] v@[i]).slot == slot,
{
    let mut j: usize = 0;
    while j < v.len()
        invariant
            j <= v@.len(),
            forall|k: int| 0 <= k < j ==> (#[trigger] v@[k]).slot != slot,
        decreases v@.len() - j,
    {
        if v[j].slot == slot {
            return true;
        }
        j = j + 1;
    }
    false
}

fn insert_all_blocks(dst: &mut Vec<BlockMetadataRecord>, batch: Vec<BlockMetadataRecord>)
    ensures
        final(dst)@ == insert_blocks(old(dst)@, batch@),
{
    let ghost s = batch@;
    let n = batch.len();
    let mut rest = batch;
    let mut i: usize = 0;
    while rest.len() > 0
        invariant
            i + rest@.len() == s.len(),
            s.len() == n,
            rest@ == s.subrange(i as int, s.len() as int),
            dst@ == insert_blocks(old(dst)@, s.subrange(0, i as int)),
        decreases rest@.len(),
    {
        let b = rest.remove(0);
        if !holds_block(dst, b.slot) {
            dst.push(b);
        }
        assert(s.subrange(0, i + 1).drop_last() == s.subrange(0, i as int));
        i = i + 1;
    }
    assert(s.subrange(0, s.len() as int) == s);
}

/// The signatures held in a sequence of transactions.
pub open spec fn signatures_of(s: Seq<TransactionRecord>) -> Set<Seq<u8>> {
    Set::new(|g: Seq<u8>| exists|i: int| 0 <= i < s.len() && (#[trigger] s[i]).signature@ == g)
}

/// Transactions with pairwise distinct signatures.
pub open spec fn distinct_signatures(s: Seq<TransactionRecord>) -> bool {
    forall|i: int, j: int|
        0 <= i < j < s.len() ==> (#[trigger] s[i]).signature@ != (#[trigger] s[j]).signature@
}

proof fn lemma_insert_transactions_signatures(s: Seq<TransactionRecord>, ts: Seq<TransactionRecord>)
    ensures
        signatures_of(insert_transactions(s, ts)) == signatures_of(s) + signatures_of(ts),
        insert_transactions(s, ts).len() <= s.len() + ts.len(),
        s.len() <= insert_transactions(s, ts).len(),
        distinct_signatures(s) ==> distinct_signatures(insert_transactions(s, ts)),
        distinct_signatures(ts) && (signatures_of(s) * signatures_of(ts)).is_empty()
            ==> insert_transactions(s, ts) == s + ts,
    decreases ts.len(),
{
    if ts.len() == 0 {
        assert(signatures_of(ts) =~= Set::empty());
        assert(signatures_of(s) + signatures_of(ts) =~= signatures_of(s));
        assert(s + ts =~= s);
    } else {
        let p = ts.drop_last();
        let t = ts.last();
        lemma_insert_transactions_signatures(s, p);
        let q = insert_transactions(s, p);
        assert forall|g: Seq<u8>| signatures_of(ts).contains(g) == (signatures_of(p).contains(g)
            || g == t.signature@) by {
            if signatures_of(ts).contains(g) && g != t.signature@ {
                let i = choose|i: int| 0 <= i < ts.len() && (#[trigger] ts[i]).signature@ == g;
                assert(p[i] == ts[i]);
            }
            if signatures_of(p).contains(g) {
                let i = choose|i: int| 0 <= i < p.len() && (#[trigger] p[i]).signature@ == g;
                assert(ts[i] == p[i]);
            }
            if g == t.signature@ {
                assert(ts[ts.len() - 1].signature@ == g);
            }
        }
        let r = insert_transactions(s, ts);
        if exists|i: int| 0 <= i < q.len() && (#[trigger] q[i]).signature@ == t.signature@ {
            assert(signatures_of(q).contains(t.signature@));
            assert(signatures_of(r) =~= signatures_of(s) + signatures_of(ts));
            if distinct_signatures(ts) && (signatures_of(s) * signatures_of(ts)).is_empty() {
                assert(distinct_signatures(p));
                assert((signatures_of(s) * signatures_of(p)) =~= Set::empty()) by {
                    assert forall|g: Seq<u8>| !(signatures_of(s) * signatures_of(p)).contains(g) by {
                        if signatures_of(p).contains(g) {
                            assert(signatures_of(ts).contains(g));
                            assert(!(signatures_of(s) * signatures_of(ts)).contains(g));
                        }
                    }
                }
                assert(q == s + p);
                let i = choose|i: int| 0 <= i < q.len() && (#[trigger] q[i]).signature@ == t.signature@;
                if i < s.len() {
                    assert(s[i] == q[i]);
                    assert(signatures_of(s).contains(t.signature@));
                    assert(signatures_of(ts).contains(t.signature@));
                    assert((signatures_of(s) * signatures_of(ts)).contains(t.signature@));
                } else {
                    assert(q[i] == p[i - s.len()]);
                    assert(ts[i - s.len()] == p[i - s.len()]);
                    assert(ts[i - s.len()].signature@ != ts[ts.len() - 1].signature@);
                }
            }
        } else {
            assert(r == q.push(t));
            assert forall|g: Seq<u8>| signatures_of(r).contains(g) == signatures_of(q).insert(t.signature@).contains(g) by {
                if signatures_of(r).contains(g) {
                    let i = choose|i: int| 0 <= i < r.len() && (#[trigger] r[i]).signature@ == g;
                    if i < q.len() {
                        assert(r[i] == q[i]);
                    }
                }
                if signatures_of(q).contains(g) {
                    let i = choose|i: int| 0 <= i < q.len() && (#[trigger] q[i]).signature@ == g;
                    assert(r[i] == q[i]);
                }
                if g == t.signature@ {
                    assert(r[q.len() as int].signature@ == g);
                }
            }
            assert(signatures_of(r) =~= signatures_of(s) + signatures_of(ts));
            if distinct_signatures(s) {
                assert forall|i: int, j: int| 0 <= i < j < r.len() implies (#[trigger] r[i]).signature@
                    != (#[trigger] r[j]).signature@ by {
                    if j < q.len() {
                        assert(r[i] == q[i] && r[j] == q[j]);
                    } else {
                        assert(r[i] == q[i]);
                    }
                }
            }
            if distinct_signatures(ts) && (signatures_of(s) * signatures_of(ts)).is_empty() {
                assert(distinct_signatures(p));
                assert((signatures_of(s) * signatures_of(p)) =~= Set::empty()) by {
                    assert forall|g: Seq<u8>| !(signatures_of(s) * signatures_of(p)).contains(g) by {
                        if signatures_of(p).contains(g) {
                            assert(signatures_of(ts).contains(g));
                            assert(!(signatures_of(s) * signatures_of(ts)).contains(g));
                        }
                    }
                }
                assert(s + ts =~= (s + p).push(t));
            }
        }
    }
}

/// Row-count law for inserted kinds: inserting transactions with distinct
/// signatures, none of them held yet, keeps every one of them, in order.
pub proof fn lemma_fresh_transactions_all_kept(s: Seq<TransactionRecord>, ts: Seq<TransactionRecord>)
    requires
        distinct_signatures(ts),
        (signatures_of(s) * signatures_of(ts)).is_empty(),
    ensures
        insert_transactions(s, ts) == s + ts,
        insert_transactions(s, ts).len() == s.len() + ts.len(),
{
    lemma_insert_transactions_signatures(s, ts);
}

/// Retry law for inserted kinds: inserting the same transactions a second
/// time leaves the store as one insertion left it.
pub proof fn lemma_transaction_replay_idempotent(s: Seq<TransactionRecord>, ts: Seq<TransactionRecord>)
    ensures
        insert_transactions(insert_transactions(s, ts), ts) == insert_transactions(s, ts),
{
    let once = insert_transactions(s, ts);
    lemma_insert_transactions_signatures(s, ts);
    lemma_held_transactions_change_nothing(once, ts);
}

proof fn lemma_held_transactions_change_nothing(s: Seq<TransactionRecord>, ts: Seq<TransactionRecord>)
    requires
        signatures_of(ts).subset_of(signatures_of(s)),
    ensures
        insert_transactions(s, ts) == s,
    decreases ts.len(),
{
    if ts.len() > 0 {
        let p = ts.drop_last();
        assert forall|g: Seq<u8>| signatures_of(p).contains(g) implies signatures_of(s).contains(g) by {
            let i = choose|i: int| 0 <= i < p.len() && (#[trigger] p[i]).signature@ == g;
            assert(ts[i] == p[i]);
            assert(signatures_of(ts).contains(g));
        }
        lemma_held_transactions_change_nothing(s, p);
        assert(ts[ts.len() - 1].signature@ == ts.last().signature@);
        assert(signatures_of(ts).contains(ts.last().signature@));
        assert(signatures_of(s).contains(ts.last().signature@));
    }
}

} // verus!
