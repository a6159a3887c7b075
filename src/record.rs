//! The records that flow through the pipeline, one type per notification kind.
use vstd::prelude::*;

verus! {

/// A write to one account, as delivered by the event source.
#[derive(Clone, Debug, PartialEq, Eq)]
pub struct AccountUpdate {
    /// Identity key of the account.
    pub key: Vec<u8>,
    /// Key of the program that owns the account.
    pub owner: Vec<u8>,
    pub balance: u64,
    pub executable: bool,
    /// Per-key sequence number: a higher one is a newer state.
    pub write_version: u64,
    pub slot: u64,
    /// Signature of the transaction that caused the write, if known.
    pub txn_signature: Option<Vec<u8>>,
    /// Category key (such as a token mint) under which the account is indexed, if any.
    pub category: Option<Vec<u8>>,
}

/// Finality level of a slot.
#[derive(Clone, Copy, Debug, PartialEq, Eq, Structural)]
pub enum SlotStatus {
    Processed,
    Confirmed,
    Rooted,
}

impl SlotStatus {
    /// Finality levels are ordered `Processed < Confirmed < Rooted`.
    pub open spec fn level(self) -> nat {
        match self {
            SlotStatus::Processed => 0,
            SlotStatus::Confirmed => 1,
            SlotStatus::Rooted => 2,
        }
    }

    pub fn rank(&self) -> (r: u8)
        ensures
            r as nat == self.level(),
    {
        match self {
            SlotStatus::Processed => 0,
            SlotStatus::Confirmed => 1,
            SlotStatus::Rooted => 2,
        }
    }
}

/// A change of finality status of one slot.
#[derive(Clone, Debug, PartialEq, Eq)]
pub struct SlotStatusUpdate {
    pub slot: u64,
    pub parent: Option<u64>,
    pub status: SlotStatus,
    pub block_hash: Option<Vec<u8>>,
}

/// One executed transaction.
#[derive(Clone, Debug, PartialEq, Eq)]
pub struct TransactionRecord {
    pub signature: Vec<u8>,
    pub slot: u64,
    /// Position of the transaction within its slot.
    pub index: u64,
    pub success: bool,
    pub fee: u64,
    pub pre_balances: Vec<u64>,
    pub post_balances: Vec<u64>,
    pub log_messages: Vec<String>,
}

/// Metadata of one confirmed or rooted block.
#[derive(Clone, Debug, PartialEq, Eq)]
pub struct BlockMetadataRecord {
    pub slot: u64,
    pub block_hash: Vec<u8>,
    pub rewards: Vec<i64>,
    pub block_time: Option<i64>,
}

/// A derived lookup row from a secondary key (owner or category) to an account.
#[derive(Clone, Debug, PartialEq, Eq)]
pub struct SecondaryIndexEntry {
    pub secondary_key: Vec<u8>,
    pub account_key: Vec<u8>,
    /// Slot of the account update the entry was derived from.
    pub slot: u64,
}

} // verus!
