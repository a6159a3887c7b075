//! A batched, ordered ingestion pipeline for account, slot and transaction
//! notifications, with the account filter that decides which accounts are
//! persisted at all.
pub mod batch;
pub mod bytes;
pub mod error;
pub mod index;
pub mod lane;
pub mod pipeline;
pub mod queue;
pub mod record;
pub mod retry;
pub mod selector;
pub mod slots;
pub mod store;
pub mod table;
