//! A set of account rows keyed by identity key, where an upsert never lets an
//! older `write_version` replace a newer one. Pending account batches and the
//! in-memory store are both tables of this kind.
use vstd::prelude::*;
use crate::bytes::bytes_eq;
use crate::error::IngestError;
use crate::record::AccountUpdate;

verus! {

/// One upsert: the update is taken unless the row already held for its key
/// has an equal or higher `write_version`.
pub open spec fn upsert(m: Map<Seq<u8>, AccountUpdate>, u: AccountUpdate) -> Map<
    Seq<u8>,
    AccountUpdate,
> {
    if m.contains_key(u.key@) && m[u.key@].write_version >= u.write_version {
        m
    } else {
        m.insert(u.key@, u)
    }
}

/// Upserts of a sequence of updates, in order.
pub open spec fn upsert_all(m: Map<Seq<u8>, AccountUpdate>, s: Seq<AccountUpdate>) -> Map<
    Seq<u8>,
    AccountUpdate,
>
    decreases s.len(),
{
    if s.len() == 0 {
        m
    } else {
        upsert(upsert_all(m, s.drop_last()), s.last())
    }
}

/// `rows` lists the rows of `m`, each exactly once.
pub open spec fn enumerates(rows: Seq<AccountUpdate>, m: Map<Seq<u8>, AccountUpdate>) -> bool {
    &&& forall|i: int, j: int|
        0 <= i < j < rows.len() ==> (#[trigger] rows[i]).key@ != (#[trigger] rows[j]).key@
    &&& forall|i: int|
        0 <= i < rows.len() ==> m.contains_key((#[trigger] rows[i]).key@) && m[rows[i].key@]
            == rows[i]
    &&& forall|k: Seq<u8>|
        #[trigger] m.contains_key(k) ==> exists|i: int| 0 <= i < rows.len() && (#[trigger] rows[i]).key@ == k
}

/// Account rows with unique identity keys.
pub struct AccountTable {
    rows: Vec<AccountUpdate>,
    contents: Ghost<Map<Seq<u8>, AccountUpdate>>,
}

impl View for AccountTable {
    type V = Map<Seq<u8>, AccountUpdate>;

    closed spec fn view(&self) -> Map<Seq<u8>, AccountUpdate> {
        self.contents@
    }
}

impl AccountTable {
    pub closed spec fn wf(&self) -> bool {
        enumerates(self.rows@, self.contents@)
    }

    pub fn new() -> (r: Self)
        ensures
            r.wf(),
            r@ == Map::<Seq<u8>, AccountUpdate>::empty(),
    {
        AccountTable { rows: Vec::new(), contents: Ghost(Map::empty()) }
    }

    /// Number of rows.
    pub fn len(&self) -> (r: usize)
        requires
            self.wf(),
        ensures
            r == self@.len(),
    {
        proof {
            lemma_enumeration_len(self.rows@, self@);
        }
        self.rows.len()
    }

    fn position(&self, key: &[u8]) -> (r: Option<usize>)
        requires
            self.wf(),
        ensures
            r matches Some(i) ==> i < self.rows@.len() && self.rows@[i as int].key@ == key@,
            r is None ==> !self@.contains_key(key@),
    {
        let mut i: usize = 0;
        while i < self.rows.len()
            invariant
                self.wf(),
                i <= self.rows@.len(),
                forall|j: int| 0 <= j < i ==> (#[trigger] self.rows@[j]).key@ != key@,
            decreases self.rows@.len() - i,
        {
            if bytes_eq(self.rows[i].key.as_slice(), key) {
                return Some(i);
            }
            i = i + 1;
        }
        None
    }

    /// The row held for an identity key.
    pub fn get(&self, key: &[u8]) -> (r: Option<&AccountUpdate>)
        requires
            self.wf(),
        ensures
            r.is_some() == self@.contains_key(key@),
            r matches Some(u) ==> *u == self@[key@],
    {
        match self.position(key) {
            Some(i) => Some(&self.rows[i]),
            None => None,
        }
    }

    /// Upserts one update. An update older than the row held for its key is
    /// discarded and reported as an ordering violation; one of the same
    /// version is accepted and changes nothing.
    pub fn upsert(&mut self, u: AccountUpdate) -> (r: Result<(), IngestError>)
        requires
            old(self).wf(),
        ensures
            final(self).wf(),
            final(self)@ == upsert(old(self)@, u),
            r is Err <==> old(self)@.contains_key(u.key@) && old(self)@[u.key@].write_version
                > u.write_version,
            r matches Err(e) ==> e == IngestError::OrderingViolationError,
    {
        let ghost m = self@;
        let ghost old_rows = self.rows@;
        match self.position(u.key.as_slice()) {
            Some(i) => {
                if self.rows[i].write_version > u.write_version {
                    return Err(IngestError::OrderingViolationError);
                }
                if self.rows[i].write_version < u.write_version {
                    let ghost k = u.key@;
                    self.rows.set(i, u);
                    self.contents = Ghost(m.insert(k, u));
                    assert forall|a: int, b: int| 0 <= a < b < self.rows@.len() implies (
                    #[trigger] self.rows@[a]).key@ != (#[trigger] self.rows@[b]).key@ by {
                        assert(old_rows[a].key@ != old_rows[b].key@);
                    }
                    assert forall|a: int| 0 <= a < self.rows@.len() implies self@.contains_key(
                        (#[trigger] self.rows@[a]).key@,
                    ) && self@[self.rows@[a].key@] == self.rows@[a] by {
                        if a != i {
                            assert(old_rows[a].key@ != old_rows[i as int].key@);
                        }
                    }
                    assert forall|k2: Seq<u8>| #[trigger] self@.contains_key(k2) implies exists|j: int|
                        0 <= j < self.rows@.len() && (#[trigger] self.rows@[j]).key@ == k2 by {
                        if k2 != k {
                            assert(m.contains_key(k2));
                            let j = choose|j: int|
                                0 <= j < old_rows.len() && (#[trigger] old_rows[j]).key@ == k2;
                            assert(j != i);
                            assert(self.rows@[j] == old_rows[j]);
                        } else {
                            assert(self.rows@[i as int].key@ == k2);
                        }
                    }
                }
            },
            None => {
                let ghost k = u.key@;
                self.rows.push(u);
                self.contents = Ghost(m.insert(k, u));
                let ghost n: int = old_rows.len() as int;
                assert forall|j: int| 0 <= j < n implies (#[trigger] old_rows[j]).key@ != k by {
                    assert(m.contains_key(old_rows[j].key@));
                }
                assert forall|a: int, b: int| 0 <= a < b < self.rows@.len() implies (
                #[trigger] self.rows@[a]).key@ != (#[trigger] self.rows@[b]).key@ by {
                    assert(self.rows@[a] == old_rows[a]);
                    if b < n {
                        assert(self.rows@[b] == old_rows[b]);
                    }
                }
                assert forall|a: int| 0 <= a < self.rows@.len() implies self@.contains_key(
                    (#[trigger] self.rows@[a]).key@,
                ) && self@[self.rows@[a].key@] == self.rows@[a] by {
                    if a < n {
                        assert(self.rows@[a] == old_rows[a]);
                    }
                }
                assert forall|k2: Seq<u8>| #[trigger] self@.contains_key(k2) implies exists|j: int|
                    0 <= j < self.rows@.len() && (#[trigger] self.rows@[j]).key@ == k2 by {
                    if k2 != k {
                        assert(m.contains_key(k2));
                        let j = choose|j: int| 0 <= j < n && (#[trigger] old_rows[j]).key@ == k2;
                        assert(self.rows@[j] == old_rows[j]);
                    } else {
                        assert(self.rows@[n].key@ == k2);
                    }
                }
            },
        }
        Ok(())
    }

    /// Upserts a sequence of updates, in order; returns how many were
    /// discarded as older than the row already held.
    pub fn upsert_all(&mut self, batch: Vec<AccountUpdate>) -> (refused: usize)
        requires
            old(self).wf(),
        ensures
            final(self).wf(),
            final(self)@ == upsert_all(old(self)@, batch@),
            refused <= batch@.len(),
    {
        let mut refused: usize = 0;
        let ghost m0 = self@;
        let ghost s = batch@;
        let n = batch.len();
        let mut rest = batch;
        let mut i: usize = 0;
        while rest.len() > 0
            invariant
                self.wf(),
                i + rest@.len() == s.len(),
                s.len() <= usize::MAX,
                rest@ == s.subrange(i as int, s.len() as int),
                self@ == upsert_all(m0, s.subrange(0, i as int)),
                refused <= i,
            decreases rest@.len(),
        {
            let u = rest.remove(0);
            assert(u == s[i as int]);
            if self.upsert(u).is_err() {
                refused = refused + 1;
            }
            assert(s.subrange(0, i + 1).drop_last() == s.subrange(0, i as int));
            i = i + 1;
        }
        assert(s.subrange(0, s.len() as int) == s);
        refused
    }

    /// Hands out all rows and leaves the table empty.
    pub fn take(&mut self) -> (r: Vec<AccountUpdate>)
        requires
            old(self).wf(),
        ensures
            final(self).wf(),
            final(self)@ == Map::<Seq<u8>, AccountUpdate>::empty(),
            enumerates(r@, old(self)@),
    {
        let mut r: Vec<AccountUpdate> = Vec::new();
        std::mem::swap(&mut r, &mut self.rows);
        self.contents = Ghost(Map::empty());
        r
    }
}

/// An enumeration of a map has as many rows as the map has keys.
pub proof fn lemma_enumeration_len(rows: Seq<AccountUpdate>, m: Map<Seq<u8>, AccountUpdate>)
    requires
        enumerates(rows, m),
    ensures
        m.dom().finite(),
        m.len() == rows.len(),
    decreases rows.len(),
{
    if rows.len() == 0 {
        assert(m.dom() =~= Set::empty());
    } else {
        let last = rows.last();
        let k = last.key@;
        let rest = rows.drop_last();
        let m2 = m.remove(k);
        assert forall|kk: Seq<u8>| #[trigger] m2.contains_key(kk) implies exists|i: int|
            0 <= i < rest.len() && (#[trigger] rest[i]).key@ == kk by {
            let i = choose|i: int| 0 <= i < rows.len() && (#[trigger] rows[i]).key@ == kk;
            assert(i != rows.len() - 1);
            assert(rest[i] == rows[i]);
        }
        assert forall|i: int| 0 <= i < rest.len() implies m2.contains_key((#[trigger] rest[i]).key@)
            && m2[rest[i].key@] == rest[i] by {
            assert(rest[i] == rows[i]);
            assert(rows[i].key@ != rows[rows.len() - 1].key@);
        }
        assert forall|i: int, j: int| 0 <= i < j < rest.len() implies (#[trigger] rest[i]).key@
            != (#[trigger] rest[j]).key@ by {
            assert(rest[i] == rows[i] && rest[j] == rows[j]);
        }
        lemma_enumeration_len(rest, m2);
        assert(m.dom() == m2.dom().insert(k));
    }
}

/// `m` holds, for the key of `u`, a row at least as new as `u`.
pub open spec fn covers(m: Map<Seq<u8>, AccountUpdate>, u: AccountUpdate) -> bool {
    m.contains_key(u.key@) && m[u.key@].write_version >= u.write_version
}

/// Upserts never lower the `write_version` held for a key.
pub proof fn lemma_versions_never_decrease(
    m: Map<Seq<u8>, AccountUpdate>,
    s: Seq<AccountUpdate>,
    u: AccountUpdate,
)
    requires
        covers(m, u),
    ensures
        covers(upsert_all(m, s), u),
    decreases s.len(),
{
    if s.len() > 0 {
        lemma_versions_never_decrease(m, s.drop_last(), u);
    }
}

/// Upserts never remove a key.
pub proof fn lemma_keys_kept(m: Map<Seq<u8>, AccountUpdate>, s: Seq<AccountUpdate>, k: Seq<u8>)
    requires
        m.contains_key(k),
    ensures
        upsert_all(m, s).contains_key(k),
    decreases s.len(),
{
    if s.len() > 0 {
        lemma_keys_kept(m, s.drop_last(), k);
    }
}

/// After upserting `s`, every element of `s` is covered.
pub proof fn lemma_highest_version_kept(m: Map<Seq<u8>, AccountUpdate>, s: Seq<AccountUpdate>, j: int)
    requires
        0 <= j < s.len(),
    ensures
        covers(upsert_all(m, s), s[j]),
    decreases s.len(),
{
    let p = s.drop_last();
    if j == s.len() - 1 {
    } else {
        assert(p[j] == s[j]);
        lemma_highest_version_kept(m, p, j);
        lemma_versions_never_decrease(upsert_all(m, p), seq![s.last()], s[j]);
        assert(seq![s.last()].drop_last() =~= Seq::<AccountUpdate>::empty());
    }
}

/// Upserting `a` and then `b` is upserting `a + b`.
pub proof fn lemma_upsert_all_concat(
    m: Map<Seq<u8>, AccountUpdate>,
    a: Seq<AccountUpdate>,
    b: Seq<AccountUpdate>,
)
    ensures
        upsert_all(upsert_all(m, a), b) == upsert_all(m, a + b),
    decreases b.len(),
{
    if b.len() == 0 {
        assert(a + b =~= a);
    } else {
        lemma_upsert_all_concat(m, a, b.drop_last());
        assert((a + b).drop_last() =~= a + b.drop_last());
    }
}

/// Upserting only covered updates changes nothing.
pub proof fn lemma_covered_upserts_change_nothing(
    m: Map<Seq<u8>, AccountUpdate>,
    s: Seq<AccountUpdate>,
)
    requires
        forall|i: int| 0 <= i < s.len() ==> covers(m, #[trigger] s[i]),
    ensures
        upsert_all(m, s) == m,
    decreases s.len(),
{
    if s.len() > 0 {
        let p = s.drop_last();
        assert forall|i: int| 0 <= i < p.len() implies covers(m, #[trigger] p[i]) by {
            assert(p[i] == s[i]);
        }
        lemma_covered_upserts_change_nothing(m, p);
        assert(covers(m, s[s.len() - 1]));
    }
}

/// Every update of a batch window is covered once the rows of the window's
/// deduplicated batch have been upserted.
pub proof fn lemma_flushed_window_covered(
    m: Map<Seq<u8>, AccountUpdate>,
    window: Seq<AccountUpdate>,
    rows: Seq<AccountUpdate>,
    j: int,
)
    requires
        enumerates(rows, upsert_all(Map::empty(), window)),
        0 <= j < window.len(),
    ensures
        covers(upsert_all(m, rows), window[j]),
{
    let b = upsert_all(Map::empty(), window);
    lemma_highest_version_kept(Map::empty(), window, j);
    let k = window[j].key@;
    assert(b.contains_key(k));
    let i = choose|i: int| 0 <= i < rows.len() && (#[trigger] rows[i]).key@ == k;
    assert(b[rows[i].key@] == rows[i]);
    lemma_highest_version_kept(m, rows, i);
}

/// Ordering law: let the updates of two consecutive batch windows be
/// deduplicated into batches and upserted into the store in turn. For any two
/// updates of one key among them with write versions `v1 < v2`, the row the
/// store keeps for that key has a write version of at least `v2`, so it is
/// never the older update, wherever the batch boundary fell.
pub proof fn lemma_newer_version_prevails(
    store: Map<Seq<u8>, AccountUpdate>,
    window1: Seq<AccountUpdate>,
    rows1: Seq<AccountUpdate>,
    window2: Seq<AccountUpdate>,
    rows2: Seq<AccountUpdate>,
    older: AccountUpdate,
    newer: AccountUpdate,
)
    requires
        enumerates(rows1, upsert_all(Map::empty(), window1)),
        enumerates(rows2, upsert_all(Map::empty(), window2)),
        (window1 + window2).contains(older),
        (window1 + window2).contains(newer),
        older.key@ == newer.key@,
        older.write_version < newer.write_version,
    ensures
        ({
            let r = upsert_all(upsert_all(store, rows1), rows2);
            &&& r.contains_key(newer.key@)
            &&& r[newer.key@].write_version >= newer.write_version
            &&& r[newer.key@] != older
        }),
{
    let w = window1 + window2;
    let j = choose|j: int| 0 <= j < w.len() && w[j] == newer;
    let mid = upsert_all(store, rows1);
    if j < window1.len() {
        assert(window1[j] == newer);
        lemma_flushed_window_covered(store, window1, rows1, j);
        lemma_versions_never_decrease(mid, rows2, newer);
    } else {
        assert(window2[j - window1.len()] == newer);
        lemma_flushed_window_covered(mid, window2, rows2, j - window1.len());
    }
}

/// Retry law: upserting the same batch a second time, as a retry after an
/// ambiguous failure does, leaves the store as one application left it.
pub proof fn lemma_replay_idempotent(m: Map<Seq<u8>, AccountUpdate>, batch: Seq<AccountUpdate>)
    ensures
        upsert_all(upsert_all(m, batch), batch) == upsert_all(m, batch),
{
    let once = upsert_all(m, batch);
    assert forall|i: int| 0 <= i < batch.len() implies covers(once, #[trigger] batch[i]) by {
        lemma_highest_version_kept(m, batch, i);
    }
    lemma_covered_upserts_change_nothing(once, batch);
}

/// The identity keys of a sequence of updates.
pub open spec fn keys_of(s: Seq<AccountUpdate>) -> Set<Seq<u8>> {
    Set::new(|k: Seq<u8>| exists|i: int| 0 <= i < s.len() && (#[trigger] s[i]).key@ == k)
}

/// Row-count law for upserted kinds: upserting updates onto a table holds
/// one row for each distinct key, old or new; in particular, on an empty
/// table, one row per distinct identity key submitted.
pub proof fn lemma_one_row_per_key(m: Map<Seq<u8>, AccountUpdate>, s: Seq<AccountUpdate>)
    ensures
        upsert_all(m, s).dom() == m.dom() + keys_of(s),
    decreases s.len(),
{
    if s.len() > 0 {
        let p = s.drop_last();
        lemma_one_row_per_key(m, p);
        assert forall|k: Seq<u8>| keys_of(s).contains(k) == (keys_of(p).contains(k) || k == s.last().key@) by {
            if keys_of(s).contains(k) && k != s.last().key@ {
                let i = choose|i: int| 0 <= i < s.len() && (#[trigger] s[i]).key@ == k;
                assert(p[i] == s[i]);
            }
            if keys_of(p).contains(k) {
                let i = choose|i: int| 0 <= i < p.len() && (#[trigger] p[i]).key@ == k;
                assert(s[i] == p[i]);
            }
            if k == s.last().key@ {
                assert(s[s.len() - 1].key@ == k);
            }
        }
    }
    assert(upsert_all(m, s).dom() =~= m.dom() + keys_of(s));
}

} // verus!
