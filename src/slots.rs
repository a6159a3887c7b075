//! Slot finality statuses, which only ever move forward.
use vstd::prelude::*;
use std::collections::HashMap;
use crate::error::IngestError;
use crate::record::{SlotStatus, SlotStatusUpdate};

verus! {

broadcast use vstd::std_specs::hash::group_hash_axioms;

/// A conditional status update: it is taken only if it raises the slot's level.
pub open spec fn advance(m: Map<u64, SlotStatus>, slot: u64, status: SlotStatus) -> Map<
    u64,
    SlotStatus,
> {
    if m.contains_key(slot) && m[slot].level() >= status.level() {
        m
    } else {
        m.insert(slot, status)
    }
}

/// Conditional updates of a sequence of status changes, in order.
pub open spec fn advance_all(m: Map<u64, SlotStatus>, s: Seq<SlotStatusUpdate>) -> Map<
    u64,
    SlotStatus,
>
    decreases s.len(),
{
    if s.len() == 0 {
        m
    } else {
        advance(advance_all(m, s.drop_last()), s.last().slot, s.last().status)
    }
}

/// The latest finality status known for each slot.
pub struct SlotTable {
    statuses: HashMap<u64, SlotStatus>,
}

impl View for SlotTable {
    type V = Map<u64, SlotStatus>;

    closed spec fn view(&self) -> Map<u64, SlotStatus> {
        self.statuses@
    }
}

impl SlotTable {
    pub fn new() -> (r: Self)
        ensures
            r@ == Map::<u64, SlotStatus>::empty(),
    {
        SlotTable { statuses: HashMap::new() }
    }

    /// The status held for a slot.
    pub fn status(&self, slot: u64) -> (r: Option<SlotStatus>)
        ensures
            r.is_some() == self@.contains_key(slot),
            r matches Some(st) ==> st == self@[slot],
    {
        match self.statuses.get(&slot) {
            Some(st) => Some(*st),
            None => None,
        }
    }

    /// Records a status change unless it would lower the slot's level. A
    /// change to a lower level is refused as an ordering violation; one to
    /// the same level is accepted and changes nothing.
    pub fn conditional_update(&mut self, slot: u64, status: SlotStatus) -> (r: Result<
        (),
        IngestError,
    >)
        ensures
            final(self)@ == advance(old(self)@, slot, status),
            r is Err <==> old(self)@.contains_key(slot) && old(self)@[slot].level()
                > status.level(),
            r matches Err(e) ==> e == IngestError::OrderingViolationError,
    {
        match self.statuses.get(&slot) {
            Some(current) => {
                let have = current.rank();
                let want = status.rank();
                if have > want {
                    return Err(IngestError::OrderingViolationError);
                }
                if have == want {
                    return Ok(());
                }
            },
            None => {},
        }
        self.statuses.insert(slot, status);
        Ok(())
    }

    /// Applies a batch of status changes in order; returns how many were
    /// refused as regressions.
    pub fn apply_all(&mut self, batch: &Vec<SlotStatusUpdate>) -> (refused: usize)
        ensures
            final(self)@ == advance_all(old(self)@, batch@),
            refused <= batch@.len(),
    {
        let ghost m0 = self@;
        let mut refused: usize = 0;
        let mut i: usize = 0;
        while i < batch.len()
            invariant
                i <= batch@.len(),
                refused <= i,
                self@ == advance_all(m0, batch@.subrange(0, i as int)),
            decreases batch@.len() - i,
        {
            let u = &batch[i];
            if self.conditional_update(u.slot, u.status).is_err() {
                refused = refused + 1;
            }
            assert(batch@.subrange(0, i + 1).drop_last() == batch@.subrange(0, i as int));
            i = i + 1;
        }
        assert(batch@.subrange(0, batch@.len() as int) == batch@);
        refused
    }
}

/// No-regression law: once a slot's status is held at some level, no sequence
/// of status writes, in any batches, leaves it at a lower level.
pub proof fn lemma_status_never_regresses(
    m: Map<u64, SlotStatus>,
    writes: Seq<SlotStatusUpdate>,
    slot: u64,
)
    requires
        m.contains_key(slot),
    ensures
        advance_all(m, writes).contains_key(slot),
        advance_all(m, writes)[slot].level() >= m[slot].level(),
    decreases writes.len(),
{
    if writes.len() > 0 {
        lemma_status_never_regresses(m, writes.drop_last(), slot);
    }
}

/// The level held for a slot after a sequence of writes is the highest among
/// the level held before and those written.
pub proof fn lemma_status_is_highest_written(
    m: Map<u64, SlotStatus>,
    writes: Seq<SlotStatusUpdate>,
    j: int,
)
    requires
        0 <= j < writes.len(),
    ensures
        advance_all(m, writes).contains_key(writes[j].slot),
        advance_all(m, writes)[writes[j].slot].level() >= writes[j].status.level(),
    decreases writes.len(),
{
    let p = writes.drop_last();
    if j < writes.len() - 1 {
        assert(p[j] == writes[j]);
        lemma_status_is_highest_written(m, p, j);
        lemma_status_never_regresses(advance_all(m, p), seq![writes.last()], writes[j].slot);
        assert(seq![writes.last()].drop_last() =~= Seq::<SlotStatusUpdate>::empty());
    }
}

/// Replaying a batch of status writes leaves the statuses as one application
/// left them.
pub proof fn lemma_status_replay_idempotent(m: Map<u64, SlotStatus>, batch: Seq<SlotStatusUpdate>)
    ensures
        advance_all(advance_all(m, batch), batch) == advance_all(m, batch),
{
    let once = advance_all(m, batch);
    assert forall|i: int| 0 <= i < batch.len() implies once.contains_key((#[trigger] batch[i]).slot)
        && once[batch[i].slot].level() >= batch[i].status.level() by {
        lemma_status_is_highest_written(m, batch, i);
    }
    lemma_dominated_writes_change_nothing(once, batch);
}

proof fn lemma_dominated_writes_change_nothing(m: Map<u64, SlotStatus>, s: Seq<SlotStatusUpdate>)
    requires
        forall|i: int|
            0 <= i < s.len() ==> m.contains_key((#[trigger] s[i]).slot) && m[s[i].slot].level()
                >= s[i].status.level(),
    ensures
        advance_all(m, s) == m,
    decreases s.len(),
{
    if s.len() > 0 {
        let p = s.drop_last();
        assert forall|i: int| 0 <= i < p.len() implies m.contains_key((#[trigger] p[i]).slot)
            && m[p[i].slot].level() >= p[i].status.level() by {
            assert(p[i] == s[i]);
        }
        lemma_dominated_writes_change_nothing(m, p);
        assert(m.contains_key(s[s.len() - 1].slot));
    }
}

} // verus!
