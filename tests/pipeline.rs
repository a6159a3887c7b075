use geyser_ingest::error::IngestError;
use geyser_ingest::index::IndexConfig;
use geyser_ingest::pipeline::{Mode, Origin, Pipeline, PipelineConfig};
use geyser_ingest::record::{
    AccountUpdate, BlockMetadataRecord, SlotStatus, SlotStatusUpdate, TransactionRecord,
};
use geyser_ingest::retry::RetryPolicy;
use geyser_ingest::store::MemoryStore;

fn config(queue_capacity: usize, batch_size: usize) -> PipelineConfig {
    PipelineConfig {
        queue_capacity,
        batch_size,
        idle_timeout_ms: 1000,
        worker_count: 2,
        index: IndexConfig { index_owner: true, index_category: true },
        retry: RetryPolicy {
            panic_on_error: false,
            max_attempts: 3,
            base_backoff_ms: 100,
            max_backoff_ms: 1000,
        },
    }
}

fn account(key: u8, write_version: u64) -> AccountUpdate {
    AccountUpdate {
        key: vec![key; 32],
        owner: vec![200; 32],
        balance: write_version * 10,
        executable: false,
        write_version,
        slot: 7,
        txn_signature: None,
        category: None,
    }
}

fn transaction(n: u64) -> TransactionRecord {
    TransactionRecord {
        signature: n.to_le_bytes().to_vec(),
        slot: n / 10,
        index: n % 10,
        success: true,
        fee: 5000,
        pre_balances: vec![n],
        post_balances: vec![n + 1],
        log_messages: vec![],
    }
}

fn write_all(store: &mut MemoryStore, p: &Pipeline, work: geyser_ingest::pipeline::FlushWork) {
    store.write_accounts(work.accounts, p.config().index);
    store.write_slot_statuses(&work.slots);
    store.write_transactions(work.transactions);
    store.write_blocks(work.blocks);
}

#[test]
fn highest_write_version_wins_within_a_batch() {
    let mut p = Pipeline::new(config(100, 10), 0).unwrap();
    assert!(p.on_account_update(account(0xA, 1)).is_ok());
    assert!(p.on_account_update(account(0xA, 3)).is_ok());
    assert!(p.on_account_update(account(0xA, 2)).is_ok());
    let work = p.take_due(1);
    assert!(work.accounts.rows.is_empty());
    let work = p.take_all(2);
    assert_eq!(work.accounts.rows.len(), 1);
    assert_eq!(work.accounts.rows[0].write_version, 3);
    let mut store = MemoryStore::new();
    write_all(&mut store, &p, work);
    assert_eq!(store.account(&[0xA; 32]).unwrap().write_version, 3);
    assert_eq!(store.account(&[0xA; 32]).unwrap().balance, 30);
}

#[test]
fn newer_version_survives_batch_boundary() {
    let mut p = Pipeline::new(config(100, 1), 0).unwrap();
    let mut store = MemoryStore::new();
    p.on_account_update(account(1, 5)).unwrap();
    let first = p.take_due(1);
    assert_eq!(first.accounts.rows.len(), 1);
    write_all(&mut store, &p, first);
    p.on_account_update(account(1, 4)).unwrap();
    let second = p.take_due(2);
    assert_eq!(second.accounts.rows.len(), 1);
    write_all(&mut store, &p, second);
    assert_eq!(store.account(&[1; 32]).unwrap().write_version, 5);
    p.on_account_update(account(1, 6)).unwrap();
    let third = p.take_due(3);
    write_all(&mut store, &p, third);
    assert_eq!(store.account(&[1; 32]).unwrap().write_version, 6);
}

#[test]
fn batch_is_due_at_batch_size() {
    let mut p = Pipeline::new(config(100, 3), 0).unwrap();
    p.on_account_update(account(1, 1)).unwrap();
    p.on_account_update(account(2, 1)).unwrap();
    assert!(p.take_due(1).accounts.rows.is_empty());
    p.on_account_update(account(3, 1)).unwrap();
    assert_eq!(p.take_due(2).accounts.rows.len(), 3);
    assert!(p.take_all(3).accounts.rows.is_empty());
}

#[test]
fn batch_is_due_after_idle_timeout() {
    let mut p = Pipeline::new(config(100, 10), 5000).unwrap();
    p.on_transaction(transaction(1)).unwrap();
    assert!(p.take_due(5999).transactions.is_empty());
    let work = p.take_due(6000);
    assert_eq!(work.transactions.len(), 1);
    assert!(p.take_due(9000).transactions.is_empty());
}

#[test]
fn full_queue_hands_the_record_back() {
    let mut p = Pipeline::new(config(2, 10), 0).unwrap();
    assert!(p.on_account_update(account(1, 1)).is_ok());
    assert!(p.on_account_update(account(2, 1)).is_ok());
    let refused = p.on_account_update(account(3, 1));
    assert_eq!(refused, Err(account(3, 1)));
    // a worker stages the queue into its batch, which frees the queue
    assert!(p.take_due(1).accounts.rows.is_empty());
    assert!(p.on_account_update(account(3, 1)).is_ok());
    let work = p.take_all(2);
    assert_eq!(work.accounts.rows.len(), 3);
}

#[test]
fn full_queues_of_every_kind_refuse() {
    let mut p = Pipeline::new(config(1, 10), 0).unwrap();
    let slot = SlotStatusUpdate { slot: 1, parent: None, status: SlotStatus::Processed, block_hash: None };
    assert!(p.on_slot_status(slot.clone()).is_ok());
    assert_eq!(p.on_slot_status(slot.clone()), Err(slot));
    assert!(p.on_transaction(transaction(1)).is_ok());
    assert_eq!(p.on_transaction(transaction(2)), Err(transaction(2)));
    let block = BlockMetadataRecord { slot: 1, block_hash: vec![1], rewards: vec![], block_time: None };
    assert!(p.on_block_metadata(block.clone()).is_ok());
    assert_eq!(p.on_block_metadata(block.clone()), Err(block));
}

#[test]
fn startup_flush_precedes_live_records() {
    let mut p = Pipeline::new(config(100, 10), 0).unwrap();
    assert_eq!(p.mode(), Mode::Startup);
    assert_eq!(p.on_account_update(account(1, 1)), Ok(Origin::ReplayFirst));
    assert_eq!(p.on_account_update(account(1, 2)), Ok(Origin::ReplayRepeat));
    assert_eq!(p.on_account_update(account(2, 1)), Ok(Origin::ReplayFirst));
    p.on_transaction(transaction(1)).unwrap();
    let startup = p.on_startup_complete(10);
    assert_eq!(p.mode(), Mode::SteadyState);
    assert_eq!(startup.accounts.rows.len(), 2);
    assert_eq!(startup.transactions.len(), 1);
    assert_eq!(p.on_account_update(account(1, 3)), Ok(Origin::Live));
    assert_eq!(p.on_account_update(account(3, 1)), Ok(Origin::Live));
    let live = p.take_all(20);
    assert_eq!(live.accounts.rows.len(), 2);
    assert!(live.accounts.rows.iter().all(|u| u.key != vec![2u8; 32]));
    assert!(live.transactions.is_empty());
    let mut store = MemoryStore::new();
    write_all(&mut store, &p, startup);
    assert_eq!(store.account(&[1; 32]).unwrap().write_version, 2);
    write_all(&mut store, &p, live);
    assert_eq!(store.account(&[1; 32]).unwrap().write_version, 3);
    assert_eq!(store.account_count(), 3);
}

#[test]
fn two_workers_flush_each_record_once() {
    let mut p = Pipeline::new(config(20_000, 10), 0).unwrap();
    let mut store = MemoryStore::new();
    let mut transactions = 0u64;
    let mut slots = 0u64;
    for n in 0..10_000u64 {
        match n % 3 {
            0 => {
                p.on_account_update(account((n % 97) as u8, n)).unwrap();
            }
            1 => {
                p.on_transaction(transaction(n)).unwrap();
                transactions += 1;
            }
            _ => {
                let s = SlotStatusUpdate { slot: n, parent: None, status: SlotStatus::Confirmed, block_hash: None };
                p.on_slot_status(s).unwrap();
                slots += 1;
            }
        }
        if n % 7 == 0 {
            // the two workers take turns
            let work = p.take_due(n);
            write_all(&mut store, &p, work);
        }
    }
    let rest = p.take_all(20_000);
    write_all(&mut store, &p, rest);
    assert_eq!(store.account_count(), 97);
    assert_eq!(store.transaction_count() as u64, transactions);
    for n in (2..10_000u64).step_by(3) {
        assert_eq!(store.slot_status(n), Some(SlotStatus::Confirmed));
    }
    assert!(slots > 0);
    // account 5 last received the highest write version below 10 000 with n % 97 == 5, n % 3 == 0
    let highest = (0..10_000u64).filter(|n| n % 3 == 0 && n % 97 == 5).max().unwrap();
    assert_eq!(store.account(&[5; 32]).unwrap().write_version, highest);
}

#[test]
fn index_entries_follow_their_rows() {
    let mut p = Pipeline::new(config(100, 10), 0).unwrap();
    let mut with_mint = account(1, 1);
    with_mint.category = Some(vec![77; 32]);
    p.on_account_update(with_mint).unwrap();
    p.on_account_update(account(2, 1)).unwrap();
    let work = p.take_all(1);
    assert_eq!(work.accounts.owner_index.len(), 2);
    assert_eq!(work.accounts.category_index.len(), 1);
    assert_eq!(work.accounts.category_index[0].secondary_key, vec![77; 32]);
    assert_eq!(work.accounts.category_index[0].account_key, vec![1; 32]);
    assert_eq!(work.accounts.category_index[0].slot, 7);
    let mut store = MemoryStore::new();
    write_all(&mut store, &p, work);
    assert_eq!(store.owner_index_len(), 2);
    assert_eq!(store.category_index_len(), 1);
    assert!(store.account(&[1; 32]).is_some());
}

#[test]
fn disabled_indexes_get_no_entries() {
    let mut c = config(100, 10);
    c.index = IndexConfig { index_owner: false, index_category: false };
    let mut p = Pipeline::new(c, 0).unwrap();
    let mut u = account(1, 1);
    u.category = Some(vec![3]);
    p.on_account_update(u).unwrap();
    let work = p.take_all(1);
    assert_eq!(work.accounts.rows.len(), 1);
    assert!(work.accounts.owner_index.is_empty());
    assert!(work.accounts.category_index.is_empty());
}

#[test]
fn bad_settings_are_configuration_errors() {
    let good = config(10, 10);
    assert!(good.validate().is_ok());
    let mut c = good;
    c.queue_capacity = 0;
    assert_eq!(Pipeline::new(c, 0).err(), Some(IngestError::ConfigurationError));
    let mut c = good;
    c.batch_size = 0;
    assert_eq!(c.validate(), Err(IngestError::ConfigurationError));
    let mut c = good;
    c.worker_count = 0;
    assert_eq!(c.validate(), Err(IngestError::ConfigurationError));
    let mut c = good;
    c.retry.max_attempts = 0;
    assert_eq!(c.validate(), Err(IngestError::ConfigurationError));
    let mut c = good;
    c.retry.base_backoff_ms = 2000;
    assert_eq!(c.validate(), Err(IngestError::ConfigurationError));
}

#[test]
fn dropped_batches_are_counted() {
    let mut p = Pipeline::new(config(10, 10), 0).unwrap();
    assert_eq!(p.dropped_batches(), 0);
    p.record_dropped_batch();
    p.record_dropped_batch();
    assert_eq!(p.dropped_batches(), 2);
}

#[test]
fn default_settings_are_valid() {
    let c = PipelineConfig::default();
    assert_eq!(c.queue_capacity, 40960);
    assert_eq!(c.batch_size, 10);
    assert!(!c.retry.panic_on_error);
    assert!(c.validate().is_ok());
}
