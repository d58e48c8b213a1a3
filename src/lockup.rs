use vstd::prelude::*;

use crate::asset::{AssetList, Coin};
use crate::error::ContractError;
use crate::msg::{Action, ReceiveChoice, RedeemType, Vault};
use crate::pagination::{
    after, chunk, cursor_page, first_n, in_vault, joined_pages, lemma_cursor_pages, lemma_owned_sorted,
    listed, owned, past, sorted_pos, within, LockPos,
};
use crate::withdraw::{is_after_redeem, withdraw};
use crate::order::{
    bytes_lt, compare_bytes, lemma_bytes_lt_asymmetric, lemma_bytes_lt_irreflexive,
    lemma_bytes_lt_total, lemma_bytes_lt_transitive,
};

verus! {

/// The bytes of an address or identifier, as the ledger orders them.
pub open spec fn text(s: String) -> Seq<u8> {
    vstd::utf8::encode_utf8(s@)
}

/// A lock record's key: owner, vault and the vault's lock identifier.
pub type LockKey = (Seq<u8>, Seq<u8>, u64);

/// The ledger's order: by owner, then vault, then identifier.
pub open spec fn key_lt(a: LockKey, b: LockKey) -> bool {
    bytes_lt(a.0, b.0) || (a.0 == b.0 && (bytes_lt(a.1, b.1) || (a.1 == b.1 && a.2 < b.2)))
}

/// Every key comes strictly before every later one.
pub open spec fn sorted_keys(s: Seq<LockKey>) -> bool {
    forall|i: int, j: int| 0 <= i < j < s.len() ==> key_lt(#[trigger] s[i], #[trigger] s[j])
}

pub proof fn lemma_key_lt_transitive(a: LockKey, b: LockKey, c: LockKey)
    requires
        key_lt(a, b),
        key_lt(b, c),
    ensures
        key_lt(a, c),
{
    if bytes_lt(a.0, b.0) && bytes_lt(b.0, c.0) {
        lemma_bytes_lt_transitive(a.0, b.0, c.0);
    }
    if a.0 == b.0 && b.0 == c.0 && bytes_lt(a.1, b.1) && bytes_lt(b.1, c.1) {
        lemma_bytes_lt_transitive(a.1, b.1, c.1);
    }
}

pub proof fn lemma_key_lt_total(a: LockKey, b: LockKey)
    ensures
        key_lt(a, b) || key_lt(b, a) || a == b,
{
    lemma_bytes_lt_total(a.0, b.0);
    lemma_bytes_lt_total(a.1, b.1);
}

pub proof fn lemma_key_lt_irreflexive(a: LockKey)
    ensures
        !key_lt(a, a),
{
    lemma_bytes_lt_irreflexive(a.0);
    lemma_bytes_lt_irreflexive(a.1);
}

pub proof fn lemma_key_lt_asymmetric(a: LockKey, b: LockKey)
    requires
        key_lt(a, b),
    ensures
        !key_lt(b, a),
{
    if bytes_lt(a.0, b.0) {
        lemma_bytes_lt_asymmetric(a.0, b.0);
    } else if bytes_lt(a.1, b.1) {
        lemma_bytes_lt_asymmetric(a.1, b.1);
        lemma_bytes_lt_irreflexive(a.0);
    } else {
        lemma_bytes_lt_irreflexive(a.0);
        lemma_bytes_lt_irreflexive(a.1);
    }
}

/// When an unlocking position completes.
#[derive(Debug, Clone, Copy, PartialEq, Eq, Structural)]
pub enum Expiration {
    /// At the first block of at least this height.
    AtHeight(u64),
    /// At the first block at or after this time, in nanoseconds.
    AtTime(u64),
    /// Never.
    Never,
}

/// The block a call runs in.
#[derive(Debug, Clone, Copy, PartialEq, Eq, Structural)]
pub struct BlockInfo {
    pub height: u64,
    /// Block time in nanoseconds.
    pub time: u64,
}

impl Expiration {
    pub open spec fn expired_at(&self, block: BlockInfo) -> bool {
        match *self {
            Expiration::AtHeight(h) => block.height >= h,
            Expiration::AtTime(t) => block.time >= t,
            Expiration::Never => false,
        }
    }

    /// Whether the point has been reached in `block`.
    pub fn is_expired(&self, block: &BlockInfo) -> (r: bool)
        ensures
            r == self.expired_at(*block),
    {
        match *self {
            Expiration::AtHeight(h) => block.height >= h,
            Expiration::AtTime(t) => block.time >= t,
            Expiration::Never => false,
        }
    }
}

/// A vault's unlocking position, as the vault reports it.
#[derive(Debug, PartialEq, Eq)]
pub struct UnlockingPosition {
    pub id: u64,
    pub owner: String,
    pub release_at: Expiration,
    pub base_token_amount: u128,
}

impl Clone for UnlockingPosition {
    fn clone(&self) -> (r: Self)
        ensures
            r == *self,
    {
        UnlockingPosition {
            id: self.id,
            owner: self.owner.clone(),
            release_at: self.release_at,
            base_token_amount: self.base_token_amount,
        }
    }
}

/// A stored unlock request: who asked, at which vault, under which identifier.
#[derive(Debug, Clone, PartialEq, Eq)]
pub struct LockRecord {
    pub owner: String,
    pub vault: String,
    pub id: u64,
}

impl LockRecord {
    pub open spec fn key(&self) -> LockKey {
        (text(self.owner), text(self.vault), self.id)
    }
}

/// The owner and vault of an unlock request whose identifier is not known yet.
#[derive(Debug, Clone, PartialEq, Eq)]
pub struct PendingUnlock {
    pub owner: String,
    pub vault: String,
}

/// The lockup ledger: the recorded unlock requests, in key order, and the
/// request that waits for its identifier, if any.
#[derive(Debug)]
pub struct LockupLedger {
    records: Vec<LockRecord>,
    pending: Option<PendingUnlock>,
}

/// The position where `k` stands or would stand in `keys`.
pub open spec fn is_slot(keys: Seq<LockKey>, k: LockKey, idx: int) -> bool {
    &&& 0 <= idx <= keys.len()
    &&& forall|j: int| 0 <= j < idx ==> key_lt(#[trigger] keys[j], k)
    &&& idx < keys.len() ==> !key_lt(keys[idx], k)
}

impl LockupLedger {
    /// The keys of the records, in order.
    pub closed spec fn keys(&self) -> Seq<LockKey> {
        self.records@.map_values(|r: LockRecord| r.key())
    }

    /// The request waiting for its identifier.
    pub closed spec fn pending_unlock(&self) -> Option<PendingUnlock> {
        self.pending
    }

    /// The ledger's invariant: its keys are strictly increasing.
    pub open spec fn wf(&self) -> bool {
        sorted_keys(self.keys())
    }

    /// Whether the ledger holds a record under `k`.
    pub open spec fn holds(&self, k: LockKey) -> bool {
        self.keys().contains(k)
    }

    pub fn new() -> (r: LockupLedger)
        ensures
            r.wf(),
            r.keys() == Seq::<LockKey>::empty(),
            r.pending_unlock() is None,
    {
        let r = LockupLedger { records: Vec::new(), pending: None };
        proof {
            assert(r.keys() =~= Seq::<LockKey>::empty());
        }
        r
    }

    /// The number of records.
    pub fn len(&self) -> (r: usize)
        ensures
            r == self.keys().len(),
    {
        self.records.len()
    }

    /// Where the key (owner, vault, id) stands, and whether a record has it.
    fn slot(&self, owner: &[u8], vault: &[u8], id: u64) -> (r: (usize, bool))
        requires
            self.wf(),
        ensures
            is_slot(self.keys(), (owner@, vault@, id), r.0 as int),
            r.1 == (r.0 < self.keys().len() && self.keys()[r.0 as int] == (owner@, vault@, id)),
            r.1 == self.holds((owner@, vault@, id)),
    {
        let ghost k = (owner@, vault@, id);
        let mut i: usize = 0;
        while i < self.records.len()
            invariant
                i <= self.keys().len(),
                self.wf(),
                k == (owner@, vault@, id),
                self.keys().len() == self.records@.len(),
                forall|j: int| 0 <= j < i ==> key_lt(#[trigger] self.keys()[j], k),
            decreases self.records@.len() - i,
        {
            let r = &self.records[i];
            assert(self.keys()[i as int] == r.key());
            let ob = r.owner.as_str().as_bytes();
            let vb = r.vault.as_str().as_bytes();
            assert(ob@ == text(r.owner) && vb@ == text(r.vault));
            let c0 = compare_bytes(ob, owner);
            let c1 = compare_bytes(vb, vault);
            let before = c0 == -1 || (c0 == 0 && (c1 == -1 || (c1 == 0 && r.id < id)));
            assert(r.key() == (ob@, vb@, r.id));
            assert(before == key_lt(self.keys()[i as int], k));
            if !before {
                let found = c0 == 0 && c1 == 0 && r.id == id;
                proof {
                    self.lemma_slot_membership(k, i as int);
                }
                return (i, found);
            }
            i = i + 1;
        }
        proof {
            self.lemma_slot_membership(k, i as int);
        }
        (i, false)
    }

    proof fn lemma_slot_membership(&self, k: LockKey, idx: int)
        requires
            self.wf(),
            is_slot(self.keys(), k, idx),
        ensures
            self.holds(k) == (idx < self.keys().len() && self.keys()[idx] == k),
    {
        let s = self.keys();
        if self.holds(k) {
            let j = choose|j: int| 0 <= j < s.len() && s[j] == k;
            if j < idx {
                lemma_key_lt_irreflexive(k);
            } else if j > idx {
                lemma_key_lt_total(s[idx], k);
                assert(key_lt(s[idx], s[j]));
                lemma_key_lt_asymmetric(s[idx], k);
            }
        }
    }

    /// Whether a record exists for (owner, vault, id).
    pub fn has(&self, owner: &String, vault: &String, id: u64) -> (r: bool)
        requires
            self.wf(),
        ensures
            r == self.holds((text(*owner), text(*vault), id)),
    {
        self.slot(owner.as_str().as_bytes(), vault.as_str().as_bytes(), id).1
    }

    /// Stores a record for (owner, vault, id); storing an existing key again
    /// changes nothing.
    pub fn save(&mut self, owner: String, vault: String, id: u64)
        requires
            old(self).wf(),
        ensures
            final(self).wf(),
            final(self).pending_unlock() == old(self).pending_unlock(),
            forall|k: LockKey| #[trigger] final(self).holds(k) <==> (old(self).holds(k) || k == (text(owner), text(vault), id)),
    {
        let (idx, found) = self.slot(owner.as_str().as_bytes(), vault.as_str().as_bytes(), id);
        if found {
            return;
        }
        let ghost old_keys = self.keys();
        let ghost k = (text(owner), text(vault), id);
        let rec = LockRecord { owner, vault, id };
        self.records.insert(idx, rec);
        proof {
            assert(self.keys() =~= old_keys.insert(idx as int, k));
            let s = self.keys();
            assert forall|i: int, j: int| 0 <= i < j < s.len() implies key_lt(#[trigger] s[i], #[trigger] s[j]) by {
                if j < idx {
                    assert(s[i] == old_keys[i] && s[j] == old_keys[j]);
                } else if j == idx {
                    assert(s[i] == old_keys[i]);
                } else {
                    assert(s[j] == old_keys[j - 1]);
                    lemma_key_lt_total(old_keys[idx as int], k);
                    if i == idx {
                        if j - 1 > idx {
                            lemma_key_lt_transitive(k, old_keys[idx as int], old_keys[j - 1]);
                        }
                    } else if i < idx {
                        assert(s[i] == old_keys[i]);
                        lemma_key_lt_transitive(old_keys[i], k, old_keys[idx as int]);
                        if j - 1 > idx {
                            lemma_key_lt_transitive(old_keys[i], old_keys[idx as int], old_keys[j - 1]);
                        }
                    } else {
                        assert(s[i] == old_keys[i - 1]);
                    }
                }
            }
            assert forall|x: LockKey| #[trigger] self.holds(x) <==> (old_keys.contains(x) || x == k) by {
                if old_keys.contains(x) {
                    let j = choose|j: int| 0 <= j < old_keys.len() && old_keys[j] == x;
                    if j < idx {
                        assert(s[j] == x);
                    } else {
                        assert(s[j + 1] == x);
                    }
                }
                if x == k {
                    assert(s[idx as int] == x);
                }
                if s.contains(x) {
                    let j = choose|j: int| 0 <= j < s.len() && s[j] == x;
                    if j < idx {
                        assert(old_keys[j] == x);
                    } else if j > idx {
                        assert(old_keys[j - 1] == x);
                    }
                }
            }
        }
    }

    /// Removes the record for (owner, vault, id); returns whether there was one.
    pub fn remove(&mut self, owner: &String, vault: &String, id: u64) -> (r: bool)
        requires
            old(self).wf(),
        ensures
            final(self).wf(),
            final(self).pending_unlock() == old(self).pending_unlock(),
            r == old(self).holds((text(*owner), text(*vault), id)),
            forall|k: LockKey| #[trigger] final(self).holds(k) <==> (old(self).holds(k) && k != (text(*owner), text(*vault), id)),
    {
        let (idx, found) = self.slot(owner.as_str().as_bytes(), vault.as_str().as_bytes(), id);
        if !found {
            return false;
        }
        let ghost old_keys = self.keys();
        let ghost k = (text(*owner), text(*vault), id);
        let _ = self.records.remove(idx);
        proof {
            assert(self.keys() =~= old_keys.remove(idx as int));
            let s = self.keys();
            assert forall|i: int, j: int| 0 <= i < j < s.len() implies key_lt(#[trigger] s[i], #[trigger] s[j]) by {
                let oi = if i < idx { i } else { i + 1 };
                let oj = if j < idx { j } else { j + 1 };
                assert(s[i] == old_keys[oi] && s[j] == old_keys[oj]);
            }
            assert forall|x: LockKey| #[trigger] self.holds(x) <==> (old_keys.contains(x) && x != k) by {
                if old_keys.contains(x) && x != k {
                    let j = choose|j: int| 0 <= j < old_keys.len() && old_keys[j] == x;
                    if j < idx {
                        assert(s[j] == x);
                    } else {
                        assert(j != idx);
                        assert(s[j - 1] == x);
                    }
                }
                if s.contains(x) {
                    let j = choose|j: int| 0 <= j < s.len() && s[j] == x;
                    let oj = if j < idx { j } else { j + 1 };
                    assert(old_keys[oj] == x);
                    if x == k {
                        assert(old_keys[idx as int] == k);
                        if oj < idx {
                            lemma_key_lt_irreflexive(k);
                        } else {
                            assert(key_lt(old_keys[idx as int], old_keys[oj]));
                            lemma_key_lt_irreflexive(k);
                        }
                    }
                }
            }
        }
        true
    }

    /// Records that `owner` asked `vault` to unlock; the identifier follows in
    /// the vault's reply. Only one request may wait at a time.
    pub fn begin_unlock(&mut self, owner: String, vault: String) -> (r: Result<(), ContractError>)
        requires
            old(self).wf(),
        ensures
            final(self).wf(),
            final(self).keys() == old(self).keys(),
            r is Ok <==> old(self).pending_unlock() is None,
            r is Ok ==> final(self).pending_unlock() == Some(PendingUnlock { owner, vault }),
            r is Err ==> r == Err::<(), ContractError>(ContractError::UnlockAlreadyPending {})
                && final(self).pending_unlock() == old(self).pending_unlock(),
    {
        if self.pending.is_some() {
            return Err(ContractError::UnlockAlreadyPending {});
        }
        self.pending = Some(PendingUnlock { owner, vault });
        Ok(())
    }

    /// Records the waiting request under the identifier `lockup_id` the vault
    /// issued, and forgets the waiting request.
    pub fn complete_unlock(&mut self, lockup_id: u64) -> (r: Result<(), ContractError>)
        requires
            old(self).wf(),
        ensures
            final(self).wf(),
            r is Ok <==> old(self).pending_unlock() is Some,
            r is Err ==> r == Err::<(), ContractError>(ContractError::NoPendingUnlock {}) && *final(self)
                == *old(self),
            r is Ok ==> final(self).pending_unlock() is None && {
                let p = old(self).pending_unlock()->Some_0;
                forall|k: LockKey| #[trigger] final(self).holds(k) <==> (old(self).holds(k) || k == (
                    text(p.owner),
                    text(p.vault),
                    lockup_id,
                ))
            },
    {
        let p = match self.pending.take() {
            Some(p) => p,
            None => {
                return Err(ContractError::NoPendingUnlock {});
            },
        };
        self.save(p.owner, p.vault, lockup_id);
        Ok(())
    }
}

/// The page size used when none is asked for.
pub const DEFAULT_LIMIT: u32 = 10;

/// The largest page size served.
pub const MAX_LIMIT: u32 = 30;

/// The page size served for the asked `limit`.
pub open spec fn page_size(limit: Option<u32>) -> nat {
    match limit {
        None => DEFAULT_LIMIT as nat,
        Some(l) => if l <= MAX_LIMIT { l as nat } else { MAX_LIMIT as nat },
    }
}

/// The positions that a list of (vault, id) entries names.
pub open spec fn positions(v: Seq<(String, u64)>) -> Seq<LockPos> {
    v.map_values(|e: (String, u64)| (text(e.0), e.1))
}

/// The cursor of a listing of all vaults: after (vault, id), or after all of
/// the vault when no id is given. An id without a vault is no cursor.
pub open spec fn all_vaults_cursor(vault: Option<String>, id: Option<u64>) -> Option<LockPos> {
    match (vault, id) {
        (Some(v), Some(i)) => Some((text(v), i)),
        (Some(v), None) => Some((text(v), u64::MAX)),
        _ => None,
    }
}

impl LockupLedger {
    /// The first `limit` positions of `owner`'s records that a listing
    /// restricted to `vault` and starting after `cursor` includes.
    fn list(
        &self,
        owner: &[u8],
        vault: Option<&[u8]>,
        cursor: Option<(&[u8], u64)>,
        limit: usize,
    ) -> (r: Vec<(String, u64)>)
        requires
            self.wf(),
        ensures
            positions(r@) == first_n(
                within(owned(self.keys(), owner@), opt_bytes(vault), opt_pos(cursor)),
                limit as nat,
            ),
    {
        let ghost vs = opt_bytes(vault);
        let ghost cs = opt_pos(cursor);
        let ghost sel = |p: LockPos| listed(vs, cs, p);
        let mut out: Vec<(String, u64)> = Vec::new();
        let mut i: usize = 0;
        while i < self.records.len()
            invariant
                i <= self.records@.len(),
                self.keys().len() == self.records@.len(),
                vs == opt_bytes(vault),
                cs == opt_pos(cursor),
                sel == (|p: LockPos| listed(vs, cs, p)),
                positions(out@) == first_n(within(owned(self.keys().take(i as int), owner@), vs, cs), limit as nat),
            decreases self.records@.len() - i,
        {
            let r = &self.records[i];
            let ghost key = self.keys()[i as int];
            assert(key == r.key());
            let ob = r.owner.as_str().as_bytes();
            let vb = r.vault.as_str().as_bytes();
            assert(ob@ == text(r.owner) && vb@ == text(r.vault));
            let mine = compare_bytes(ob, owner) == 0;
            let in_v = match vault {
                None => true,
                Some(v) => compare_bytes(vb, v) == 0,
            };
            let past_c = match cursor {
                None => true,
                Some((cv, cid)) => {
                    let c = compare_bytes(cv, vb);
                    c == -1 || (c == 0 && cid < r.id)
                },
            };
            let ghost prev = owned(self.keys().take(i as int), owner@);
            proof {
                let t = self.keys().take(i + 1);
                assert(t.drop_last() =~= self.keys().take(i as int));
                assert(t.last() == key);
                assert(in_v == in_vault(vs, (key.1, key.2)));
                assert(past_c == past(cs, (key.1, key.2)));
                if mine {
                    assert(owned(t, owner@) == prev.push((key.1, key.2)));
                    prev.lemma_filter_push((key.1, key.2), sel);
                } else {
                    assert(owned(t, owner@) == prev);
                }
            }
            if mine && in_v && past_c && out.len() < limit {
                let ghost before = out@;
                out.push((r.vault.clone(), r.id));
                proof {
                    assert(positions(out@) =~= positions(before).push((key.1, key.2)));
                }
            }
            i = i + 1;
        }
        proof {
            assert(self.keys().take(i as int) =~= self.keys());
        }
        out
    }

    /// Lists the positions (vault, id) of `user`'s records in key order,
    /// after the cursor formed by `start_after_vault_addr` and
    /// `start_after_id`, at most `limit` of them (by default and at most
    /// fixed sizes). An id without a vault is refused.
    pub fn paginate_all_user_unlocking_positions(
        &self,
        user: &String,
        start_after_vault_addr: Option<String>,
        start_after_id: Option<u64>,
        limit: Option<u32>,
    ) -> (r: Result<Vec<(String, u64)>, ContractError>)
        requires
            self.wf(),
        ensures
            r is Err <==> start_after_vault_addr is None && start_after_id is Some,
            r is Err ==> r == Err::<Vec<(String, u64)>, ContractError>(ContractError::InvalidCursor {}),
            r matches Ok(v) ==> positions(v@) == first_n(
                within(owned(self.keys(), text(*user)), None, all_vaults_cursor(start_after_vault_addr, start_after_id)),
                page_size(limit),
            ),
    {
        let size: u32 = match limit {
            None => DEFAULT_LIMIT,
            Some(l) => if l <= MAX_LIMIT { l } else { MAX_LIMIT },
        };
        let owner = user.as_str().as_bytes();
        match (&start_after_vault_addr, start_after_id) {
            (None, Some(_)) => Err(ContractError::InvalidCursor {}),
            (None, None) => Ok(self.list(owner, None, None, size as usize)),
            (Some(v), id) => {
                let i: u64 = match id {
                    Some(i) => i,
                    None => u64::MAX,
                };
                Ok(self.list(owner, None, Some((v.as_str().as_bytes(), i)), size as usize))
            },
        }
    }

    /// Lists the ids of `user`'s records at `vault` in order, after
    /// `start_after_id` when given, at most `limit` of them (by default and at
    /// most fixed sizes).
    pub fn user_lockup_ids_for_vault(
        &self,
        user: &String,
        vault: &String,
        start_after_id: Option<u64>,
        limit: Option<u32>,
    ) -> (r: Vec<u64>)
        requires
            self.wf(),
        ensures
            r@ == first_n(
                within(
                    owned(self.keys(), text(*user)),
                    Some(text(*vault)),
                    match start_after_id {
                        Some(i) => Some((text(*vault), i)),
                        None => None,
                    },
                ),
                page_size(limit),
            ).map_values(|p: LockPos| p.1),
    {
        let size: u32 = match limit {
            None => DEFAULT_LIMIT,
            Some(l) => if l <= MAX_LIMIT { l } else { MAX_LIMIT },
        };
        let vb = vault.as_str().as_bytes();
        let cursor = match start_after_id {
            Some(i) => Some((vb, i)),
            None => None,
        };
        let found = self.list(user.as_str().as_bytes(), Some(vb), cursor, size as usize);
        let mut ids: Vec<u64> = Vec::new();
        let mut i: usize = 0;
        while i < found.len()
            invariant
                i <= found@.len(),
                ids@ == positions(found@).take(i as int).map_values(|p: LockPos| p.1),
            decreases found@.len() - i,
        {
            ids.push(found[i].1);
            i = i + 1;
            proof {
                assert(ids@ =~= positions(found@).take(i as int).map_values(|p: LockPos| p.1));
            }
        }
        proof {
            assert(positions(found@).take(i as int) =~= positions(found@));
        }
        ids
    }
}

/// The bytes of an optional vault.
pub open spec fn opt_bytes(v: Option<&[u8]>) -> Option<Seq<u8>> {
    match v {
        Some(b) => Some(b@),
        None => None,
    }
}

/// The position of an optional cursor.
pub open spec fn opt_pos(c: Option<(&[u8], u64)>) -> Option<LockPos> {
    match c {
        Some((b, i)) => Some((b@, i)),
        None => None,
    }
}

/// Paging through an owner's records with
/// `paginate_all_user_unlocking_positions`, passing the last position of each
/// page as the next cursor: the positions are sorted without repetition, page
/// `n` is the `n`-th run of `k` positions after the starting cursor, a page
/// is non-empty exactly while `n * k` is below the number `N` of positions
/// after the cursor (so there are ceil(N / k) pages), and the first `n` pages
/// joined are the first `n * k` positions, so all pages joined are all `N`.
pub proof fn lemma_ledger_pages(ledger: LockupLedger, owner: Seq<u8>, cursor: Option<LockPos>, k: nat, n: nat)
    requires
        ledger.wf(),
        k > 0,
    ensures
        sorted_pos(owned(ledger.keys(), owner)),
        cursor_page(owned(ledger.keys(), owner), cursor, k, n) == chunk(after(owned(ledger.keys(), owner), cursor), k, n),
        cursor_page(owned(ledger.keys(), owner), cursor, k, n).len() > 0 <==> n * k < after(
            owned(ledger.keys(), owner),
            cursor,
        ).len(),
        joined_pages(owned(ledger.keys(), owner), cursor, k, n) == first_n(after(owned(ledger.keys(), owner), cursor), n * k),
{
    lemma_owned_sorted(ledger.keys(), owner);
    lemma_cursor_pages(owned(ledger.keys(), owner), cursor, k, n);
}

/// What withdrawing the lock `k` yields: it must exist and have matured.
pub open spec fn unlock_withdrawal(pre: LockupLedger, k: LockKey, matured: bool) -> Result<(), ContractError> {
    if !pre.holds(k) {
        Err(ContractError::LockupNotFound {})
    } else if !matured {
        Err(ContractError::LockupNotMatured {})
    } else {
        Ok(())
    }
}

/// The ledger after withdrawing the lock `k`: the record is gone when the
/// withdrawal succeeds, and nothing changed when it fails.
pub open spec fn ledger_after_withdrawal(pre: LockupLedger, post: LockupLedger, k: LockKey, matured: bool) -> bool {
    &&& post.wf()
    &&& post.pending_unlock() == pre.pending_unlock()
    &&& if unlock_withdrawal(pre, k, matured) is Ok {
        forall|x: LockKey| #[trigger] post.holds(x) <==> (pre.holds(x) && x != k)
    } else {
        post.keys() == pre.keys()
    }
}

/// Plans an unlock of the vault tokens sent in `funds`, which must be exactly
/// one coin of the vault's share token, and records the request as waiting
/// for its identifier.
pub fn execute_unlock(
    ledger: &mut LockupLedger,
    vault: &Vault,
    funds: &Vec<Coin>,
    sender: String,
) -> (r: Result<Vec<Action>, ContractError>)
    requires
        old(ledger).wf(),
    ensures
        final(ledger).wf(),
        final(ledger).keys() == old(ledger).keys(),
        r is Ok <==> funds@.len() == 1 && funds@[0].denom@ == vault.vault_token@ && old(ledger).pending_unlock() is None,
        !(funds@.len() == 1 && funds@[0].denom@ == vault.vault_token@) ==> r == Err::<Vec<Action>, ContractError>(
            ContractError::InvalidVaultToken {},
        ),
        r is Err ==> final(ledger).pending_unlock() == old(ledger).pending_unlock(),
        r matches Ok(acts) ==> acts@ == seq![
            Action::VaultUnlock {
                vault_address: vault.address,
                vault_token: funds@[0].denom,
                amount: funds@[0].amount,
            },
        ] && final(ledger).pending_unlock() == Some(PendingUnlock { owner: sender, vault: vault.address }),
{
    if funds.len() != 1 || !funds[0].denom.eq(&vault.vault_token) {
        return Err(ContractError::InvalidVaultToken {});
    }
    match ledger.begin_unlock(sender, vault.address.clone()) {
        Ok(()) => {},
        Err(e) => {
            return Err(e);
        },
    }
    let mut msgs: Vec<Action> = Vec::new();
    msgs.push(
        Action::VaultUnlock {
            vault_address: vault.address.clone(),
            vault_token: funds[0].denom.clone(),
            amount: funds[0].amount,
        },
    );
    proof {
        assert(msgs@ =~= seq![
            Action::VaultUnlock {
                vault_address: vault.address,
                vault_token: funds@[0].denom,
                amount: funds@[0].amount,
            },
        ]);
    }
    Ok(msgs)
}

/// Plans the withdrawal of the matured unlocking position `lockup_id` of
/// `sender` at `vault`, whose release point is `release_at`, and consumes its
/// lock record. A lock the sender does not hold, or one not yet matured in
/// `block`, is refused and the ledger stays as it was.
pub fn execute_withdraw_unlocked(
    ledger: &mut LockupLedger,
    sender: &String,
    vault: &Vault,
    lockup_id: u64,
    release_at: Expiration,
    block: &BlockInfo,
    recipient: String,
    receive_choice: ReceiveChoice,
    min_out: AssetList,
) -> (r: Result<Vec<Action>, ContractError>)
    requires
        old(ledger).wf(),
        min_out.wf(),
    ensures
        ({
            let k = (text(*sender), text(vault.address), lockup_id);
            let matured = release_at.expired_at(*block);
            &&& r is Ok <==> unlock_withdrawal(*old(ledger), k, matured) is Ok
            &&& r matches Err(e) ==> unlock_withdrawal(*old(ledger), k, matured) == Err::<(), ContractError>(e)
            &&& ledger_after_withdrawal(*old(ledger), *final(ledger), k, matured)
        }),
        r matches Ok(acts) ==> acts@.len() == 2 && acts@[0] == (Action::VaultWithdrawUnlocked {
            vault_address: vault.address,
            lockup_id,
        }) && is_after_redeem(acts@[1], receive_choice, vault.base_token, recipient, min_out@),
{
    if !ledger.has(sender, &vault.address, lockup_id) {
        return Err(ContractError::LockupNotFound {});
    }
    if !release_at.is_expired(block) {
        return Err(ContractError::LockupNotMatured {});
    }
    let no_funds: Vec<Coin> = Vec::new();
    let acts = withdraw(vault, &no_funds, recipient, receive_choice, min_out, RedeemType::Lockup(lockup_id));
    let acts = match acts {
        Ok(a) => a,
        Err(e) => {
            return Err(e);
        },
    };
    let _ = ledger.remove(sender, &vault.address, lockup_id);
    Ok(acts)
}

/// A lock is consumed at most once: withdrawing it before it matures fails
/// and keeps the record; withdrawing it after it matured succeeds and removes
/// the record, so any later withdrawal of the same lock fails as not found.
pub proof fn lemma_withdraw_unlocked_once(
    pre: LockupLedger,
    post: LockupLedger,
    k: LockKey,
    matured: bool,
    matured_later: bool,
)
    requires
        pre.wf(),
        pre.holds(k),
        ledger_after_withdrawal(pre, post, k, matured),
    ensures
        !matured ==> unlock_withdrawal(pre, k, matured) == Err::<(), ContractError>(ContractError::LockupNotMatured {})
            && post.holds(k),
        matured ==> unlock_withdrawal(pre, k, matured) is Ok && !post.holds(k) && unlock_withdrawal(
            post,
            k,
            matured_later,
        ) == Err::<(), ContractError>(ContractError::LockupNotFound {}),
{
}

} // verus!
