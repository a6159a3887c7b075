use geyser_ingest::error::IngestError;
use geyser_ingest::index::{derive_index_entries, IndexConfig};
use geyser_ingest::pipeline::AccountFlush;
use geyser_ingest::record::{
    AccountUpdate, BlockMetadataRecord, SlotStatus, SlotStatusUpdate, TransactionRecord,
};
use geyser_ingest::slots::SlotTable;
use geyser_ingest::store::MemoryStore;
use geyser_ingest::table::AccountTable;

const INDEX: IndexConfig = IndexConfig { index_owner: true, index_category: false };

fn account(key: u8, write_version: u64, balance: u64) -> AccountUpdate {
    AccountUpdate {
        key: vec![key; 4],
        owner: vec![9; 4],
        balance,
        executable: false,
        write_version,
        slot: 1,
        txn_signature: Some(vec![key, 1]),
        category: None,
    }
}

fn flush(rows: Vec<AccountUpdate>) -> AccountFlush {
    let (owner_index, category_index) = derive_index_entries(&rows, INDEX);
    AccountFlush { rows, owner_index, category_index }
}

fn status(slot: u64, status: SlotStatus) -> SlotStatusUpdate {
    SlotStatusUpdate { slot, parent: None, status, block_hash: None }
}

#[test]
fn slot_status_moves_forward() {
    let mut t = SlotTable::new();
    assert_eq!(t.conditional_update(5, SlotStatus::Processed), Ok(()));
    assert_eq!(t.conditional_update(5, SlotStatus::Confirmed), Ok(()));
    assert_eq!(t.conditional_update(5, SlotStatus::Rooted), Ok(()));
    assert_eq!(t.status(5), Some(SlotStatus::Rooted));
    assert_eq!(t.status(6), None);
}

#[test]
fn slot_status_never_regresses() {
    let mut t = SlotTable::new();
    t.conditional_update(5, SlotStatus::Rooted).unwrap();
    assert_eq!(
        t.conditional_update(5, SlotStatus::Processed),
        Err(IngestError::OrderingViolationError)
    );
    assert_eq!(
        t.conditional_update(5, SlotStatus::Confirmed),
        Err(IngestError::OrderingViolationError)
    );
    assert_eq!(t.conditional_update(5, SlotStatus::Rooted), Ok(()));
    assert_eq!(t.status(5), Some(SlotStatus::Rooted));
}

#[test]
fn store_counts_refused_slot_regressions() {
    let mut store = MemoryStore::new();
    let batch = vec![
        status(1, SlotStatus::Confirmed),
        status(1, SlotStatus::Processed),
        status(2, SlotStatus::Processed),
        status(1, SlotStatus::Rooted),
        status(2, SlotStatus::Processed),
    ];
    assert_eq!(store.write_slot_statuses(&batch), 1);
    assert_eq!(store.slot_status(1), Some(SlotStatus::Rooted));
    assert_eq!(store.slot_status(2), Some(SlotStatus::Processed));
}

#[test]
fn slot_levels_are_ordered() {
    assert_eq!(SlotStatus::Processed.rank(), 0);
    assert_eq!(SlotStatus::Confirmed.rank(), 1);
    assert_eq!(SlotStatus::Rooted.rank(), 2);
}

#[test]
fn replayed_account_batch_changes_nothing() {
    let rows = vec![account(1, 3, 30), account(2, 1, 10), account(1, 2, 20)];
    let mut once = MemoryStore::new();
    once.write_accounts(flush(rows.clone()), INDEX);
    let mut twice = MemoryStore::new();
    assert_eq!(twice.write_accounts(flush(rows.clone()), INDEX), 1);
    assert_eq!(twice.write_accounts(flush(rows), INDEX), 1);
    assert_eq!(once.account_count(), 2);
    assert_eq!(twice.account_count(), 2);
    for key in [1u8, 2] {
        assert_eq!(once.account(&[key; 4]), twice.account(&[key; 4]));
    }
    assert_eq!(twice.account(&[1; 4]).unwrap().balance, 30);
}

#[test]
fn replayed_transactions_and_blocks_change_nothing() {
    let txs: Vec<TransactionRecord> = (0..5u64)
        .map(|n| TransactionRecord {
            signature: vec![n as u8; 8],
            slot: 3,
            index: n,
            success: n % 2 == 0,
            fee: 10,
            pre_balances: vec![],
            post_balances: vec![],
            log_messages: vec![format!("tx {}", n)],
        })
        .collect();
    let blocks = vec![
        BlockMetadataRecord { slot: 3, block_hash: vec![3], rewards: vec![1, -1], block_time: Some(17) },
        BlockMetadataRecord { slot: 4, block_hash: vec![4], rewards: vec![], block_time: None },
    ];
    let mut store = MemoryStore::new();
    store.write_transactions(txs.clone());
    store.write_blocks(blocks.clone());
    assert_eq!(store.transaction_count(), 5);
    assert_eq!(store.block_count(), 2);
    store.write_transactions(txs);
    store.write_blocks(blocks);
    assert_eq!(store.transaction_count(), 5);
    assert_eq!(store.block_count(), 2);
}

#[test]
fn table_upsert_keeps_newest() {
    let mut t = AccountTable::new();
    assert_eq!(t.upsert(account(1, 2, 20)), Ok(()));
    assert_eq!(t.upsert(account(1, 1, 10)), Err(IngestError::OrderingViolationError));
    assert_eq!(t.get(&[1; 4]).unwrap().balance, 20);
    assert_eq!(t.upsert(account(1, 2, 99)), Ok(()));
    assert_eq!(t.get(&[1; 4]).unwrap().balance, 20);
    assert_eq!(t.upsert(account(1, 5, 50)), Ok(()));
    assert_eq!(t.get(&[1; 4]).unwrap().balance, 50);
    assert_eq!(t.upsert_all(vec![account(2, 1, 1), account(3, 1, 1), account(1, 4, 0)]), 1);
    assert_eq!(t.len(), 3);
    let rows = t.take();
    assert_eq!(rows.len(), 3);
    assert_eq!(t.len(), 0);
    assert!(t.get(&[1; 4]).is_none());
}

#[test]
fn index_rows_are_derived_per_account() {
    let mut a = account(1, 1, 1);
    a.category = Some(vec![5, 5]);
    let b = account(2, 1, 1);
    let (owners, categories) = derive_index_entries(
        &vec![a, b],
        IndexConfig { index_owner: true, index_category: true },
    );
    assert_eq!(owners.len(), 2);
    assert_eq!(owners[1].secondary_key, vec![9; 4]);
    assert_eq!(owners[1].account_key, vec![2; 4]);
    assert_eq!(categories.len(), 1);
    assert_eq!(categories[0].secondary_key, vec![5, 5]);
}
