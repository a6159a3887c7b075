//! Secondary index entries derived from a batch of account rows.
use vstd::prelude::*;
use crate::bytes::copy_bytes;
use crate::record::{AccountUpdate, SecondaryIndexEntry};

verus! {

/// An index entry as plain values: secondary key, account key, slot.
pub type IndexRow = (Seq<u8>, Seq<u8>, u64);

impl SecondaryIndexEntry {
    pub open spec fn row(&self) -> IndexRow {
        (self.secondary_key@, self.account_key@, self.slot)
    }
}

/// Which secondary indexes are maintained.
#[derive(Clone, Copy, Debug, PartialEq, Eq, Structural)]
pub struct IndexConfig {
    pub index_owner: bool,
    pub index_category: bool,
}

/// One owner-index row per account row.
pub open spec fn owner_rows(batch: Seq<AccountUpdate>) -> Seq<IndexRow>
    decreases batch.len(),
{
    if batch.len() == 0 {
        Seq::empty()
    } else {
        owner_rows(batch.drop_last()).push((batch.last().owner@, batch.last().key@, batch.last().slot))
    }
}

/// One category-index row per account row that has a category.
pub open spec fn category_rows(batch: Seq<AccountUpdate>) -> Seq<IndexRow>
    decreases batch.len(),
{
    if batch.len() == 0 {
        Seq::empty()
    } else {
        let p = category_rows(batch.drop_last());
        match batch.last().category {
            Some(c) => p.push((c@, batch.last().key@, batch.last().slot)),
            None => p,
        }
    }
}

pub open spec fn rows_of(entries: Seq<SecondaryIndexEntry>) -> Seq<IndexRow> {
    entries.map_values(|e: SecondaryIndexEntry| e.row())
}

/// The secondary index entries for a batch of account rows, one list per
/// index; a disabled index gets no entries.
pub fn derive_index_entries(batch: &Vec<AccountUpdate>, config: IndexConfig) -> (r: (
    Vec<SecondaryIndexEntry>,
    Vec<SecondaryIndexEntry>,
))
    ensures
        rows_of(r.0@) == (if config.index_owner {
            owner_rows(batch@)
        } else {
            Seq::empty()
        }),
        rows_of(r.1@) == (if config.index_category {
            category_rows(batch@)
        } else {
            Seq::empty()
        }),
{
    let mut owners: Vec<SecondaryIndexEntry> = Vec::new();
    let mut categories: Vec<SecondaryIndexEntry> = Vec::new();
    let mut i: usize = 0;
    while i < batch.len()
        invariant
            i <= batch@.len(),
            rows_of(owners@) == (if config.index_owner {
                owner_rows(batch@.subrange(0, i as int))
            } else {
                Seq::empty()
            }),
            rows_of(categories@) == (if config.index_category {
                category_rows(batch@.subrange(0, i as int))
            } else {
                Seq::empty()
            }),
        decreases batch@.len() - i,
    {
        let u = &batch[i];
        let ghost pre = batch@.subrange(0, i as int);
        let ghost post = batch@.subrange(0, i + 1);
        assert(post.drop_last() == pre);
        if config.index_owner {
            let e = SecondaryIndexEntry {
                secondary_key: copy_bytes(&u.owner),
                account_key: copy_bytes(&u.key),
                slot: u.slot,
            };
            let ghost before = owners@;
            owners.push(e);
            assert(rows_of(owners@) =~= rows_of(before).push(e.row()));
        }
        if config.index_category {
            match &u.category {
                Some(c) => {
                    let e = SecondaryIndexEntry {
                        secondary_key: copy_bytes(c),
                        account_key: copy_bytes(&u.key),
                        slot: u.slot,
                    };
                    let ghost before = categories@;
                    categories.push(e);
                    assert(rows_of(categories@) =~= rows_of(before).push(e.row()));
                },
                None => {},
            }
        }
        i = i + 1;
    }
    assert(batch@.subrange(0, batch@.len() as int) == batch@);
    (owners, categories)
}

/// Every derived index row points at an account row of the batch it came from.
pub proof fn lemma_index_rows_point_into_batch(batch: Seq<AccountUpdate>, j: int)
    ensures
        0 <= j < owner_rows(batch).len() ==> exists|i: int|
            0 <= i < batch.len() && (#[trigger] batch[i]).key@ == owner_rows(batch)[j].1,
        0 <= j < category_rows(batch).len() ==> exists|i: int|
            0 <= i < batch.len() && (#[trigger] batch[i]).key@ == category_rows(batch)[j].1,
    decreases batch.len(),
{
    if batch.len() > 0 {
        let p = batch.drop_last();
        lemma_index_rows_point_into_batch(p, j);
        if 0 <= j < owner_rows(p).len() {
            let i = choose|i: int| 0 <= i < p.len() && (#[trigger] p[i]).key@ == owner_rows(p)[j].1;
            assert(batch[i] == p[i]);
        }
        if j == owner_rows(p).len() {
            assert(batch[batch.len() - 1].key@ == owner_rows(batch)[j].1);
        }
        if 0 <= j < category_rows(p).len() {
            let i = choose|i: int|
                0 <= i < p.len() && (#[trigger] p[i]).key@ == category_rows(p)[j].1;
            assert(batch[i] == p[i]);
        }
        if j == category_rows(p).len() && batch.last().category is Some {
            assert(batch[batch.len() - 1].key@ == category_rows(batch)[j].1);
        }
    }
}

} // verus!
