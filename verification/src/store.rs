//! The in-memory account store: an exclusively owned mapping from address to
//! account (info, storage slots, loaded flag), with the zero-default policy
//! for addresses and slots that were never written.
use vstd::prelude::*;

use crate::account::{AccountInfo, InfoModel};
use crate::values::{Address, Hash256, Uint256};

verus! {

/// The mathematical shape of one stored account.
#[verifier::ext_equal]
pub struct CellModel {
    pub info: InfoModel,
    pub storage: Map<Uint256, Uint256>,
    /// Whether the entry is locally authoritative, so that a remote-backed
    /// store never needs to consult its remote source for it.
    pub loaded: bool,
}

/// One stored account: its info, its storage slots as an association vector
/// with pairwise-distinct keys, and the loaded flag.
#[derive(Debug)]
pub struct AccountCell {
    pub info: AccountInfo,
    pub storage: Vec<(Uint256, Uint256)>,
    pub loaded: bool,
}

pub open spec fn slot_has_key(s: Seq<(Uint256, Uint256)>, k: Uint256) -> bool {
    exists|i: int| 0 <= i < s.len() && s[i].0 == k
}

pub open spec fn slot_index_of(s: Seq<(Uint256, Uint256)>, k: Uint256) -> int {
    choose|i: int| 0 <= i < s.len() && s[i].0 == k
}

pub open spec fn slot_keys_unique(s: Seq<(Uint256, Uint256)>) -> bool {
    forall|i: int, j: int| 0 <= i < j < s.len() ==> s[i].0 != s[j].0
}

pub open spec fn slots_map(s: Seq<(Uint256, Uint256)>) -> Map<Uint256, Uint256> {
    Map::new(|k: Uint256| slot_has_key(s, k), |k: Uint256| s[slot_index_of(s, k)].1)
}

impl AccountCell {
    pub open spec fn wf(&self) -> bool {
        slot_keys_unique(self.storage@)
    }

    pub open spec fn view_spec(&self) -> CellModel {
        CellModel { info: self.info@, storage: slots_map(self.storage@), loaded: self.loaded }
    }
}

pub open spec fn seq_has_key(s: Seq<(Address, AccountCell)>, a: Address) -> bool {
    exists|i: int| 0 <= i < s.len() && s[i].0 == a
}

pub open spec fn seq_index_of(s: Seq<(Address, AccountCell)>, a: Address) -> int {
    choose|i: int| 0 <= i < s.len() && s[i].0 == a
}

pub open spec fn seq_keys_unique(s: Seq<(Address, AccountCell)>) -> bool {
    forall|i: int, j: int| 0 <= i < j < s.len() ==> s[i].0 != s[j].0
}

pub open spec fn cells_map(s: Seq<(Address, AccountCell)>) -> Map<Address, CellModel> {
    Map::new(|a: Address| seq_has_key(s, a), |a: Address| s[seq_index_of(s, a)].1.view_spec())
}

/// The observed info of an address under the zero-default policy: what the
/// map holds, or the zero-valued account.
pub open spec fn map_info_of(m: Map<Address, CellModel>, a: Address) -> InfoModel {
    if m.dom().contains(a) {
        m[a].info
    } else {
        InfoModel::zero()
    }
}

/// The observed value of a slot under the zero-default policy.
pub open spec fn map_slot_of(m: Map<Address, CellModel>, a: Address, k: Uint256) -> Uint256 {
    if m.dom().contains(a) && m[a].storage.dom().contains(k) {
        m[a].storage[k]
    } else {
        Uint256 { l0: 0, l1: 0, l2: 0, l3: 0 }
    }
}

/// The in-memory mapping from address to account.
#[derive(Debug)]
pub struct AccountStore {
    entries: Vec<(Address, AccountCell)>,
}

impl AccountStore {
    pub closed spec fn wf(&self) -> bool {
        seq_keys_unique(self.entries@) && (forall|i: int|
            0 <= i < self.entries@.len() ==> #[trigger] self.entries@[i].1.wf())
    }

    /// The store as a partial map over the entries that exist.
    pub closed spec fn view_map(&self) -> Map<Address, CellModel> {
        cells_map(self.entries@)
    }

    /// The entries in insertion order, for walking the store.
    pub closed spec fn seq_view(&self) -> Seq<(Address, CellModel)> {
        Seq::new(self.entries@.len(), |i: int| (self.entries@[i].0, self.entries@[i].1.view_spec()))
    }

    /// The cached storage pairs of the entry at position `i`, for walking
    /// one account's slots.
    pub closed spec fn slots_seq_at(&self, i: int) -> Seq<(Uint256, Uint256)> {
        self.entries@[i].1.storage@
    }

    pub open spec fn contains_spec(&self, a: Address) -> bool {
        self.view_map().dom().contains(a)
    }

    /// The observed info of an address: what is stored, or the zero-valued
    /// account if the address was never written.
    pub open spec fn info_of(&self, a: Address) -> InfoModel {
        map_info_of(self.view_map(), a)
    }

    /// The observed value of a storage slot: what is stored, or zero.
    pub open spec fn slot_of(&self, a: Address, k: Uint256) -> Uint256 {
        map_slot_of(self.view_map(), a, k)
    }

    pub fn new() -> (r: Self)
        ensures
            r.wf(),
            r.view_map() =~= Map::<Address, CellModel>::empty(),
            r.seq_view() =~= Seq::<(Address, CellModel)>::empty(),
    {
        let r = AccountStore { entries: Vec::new() };
        proof {
            assert forall|a: Address| !seq_has_key(r.entries@, a) by {}
        }
        r
    }

    proof fn lemma_key_at(&self, i: int)
        requires
            self.wf(),
            0 <= i < self.entries@.len(),
        ensures
            seq_has_key(self.entries@, self.entries@[i].0),
            seq_index_of(self.entries@, self.entries@[i].0) == i,
            self.view_map().dom().contains(self.entries@[i].0),
            self.view_map()[self.entries@[i].0] == self.entries@[i].1.view_spec(),
    {
        assert(seq_has_key(self.entries@, self.entries@[i].0));
        let j = seq_index_of(self.entries@, self.entries@[i].0);
        assert(0 <= j < self.entries@.len() && self.entries@[j].0 == self.entries@[i].0);
        if i != j {
            assert(false);
        }
    }

    fn find(&self, a: &Address) -> (r: Option<usize>)
        requires
            self.wf(),
        ensures
            match r {
                Some(i) => i < self.entries@.len() && self.entries@[i as int].0 == *a
                    && self.contains_spec(*a) && seq_index_of(self.entries@, *a) == i,
                None => !self.contains_spec(*a),
            },
    {
        let n = self.entries.len();
        let mut i: usize = 0;
        while i < n
            invariant
                self.wf(),
                n == self.entries@.len(),
                i <= n,
                forall|j: int| 0 <= j < i ==> self.entries@[j].0 != *a,
            decreases n - i,
        {
            if self.entries[i].0 == *a {
                proof {
                    self.lemma_key_at(i as int);
                }
                return Some(i);
            }
            i += 1;
        }
        proof {
            assert(!seq_has_key(self.entries@, *a));
        }
        None
    }

    pub fn contains(&self, a: &Address) -> (r: bool)
        requires
            self.wf(),
        ensures
            r == self.contains_spec(*a),
    {
        self.find(a).is_some()
    }

    pub fn is_loaded(&self, a: &Address) -> (r: bool)
        requires
            self.wf(),
        ensures
            r == (self.contains_spec(*a) && self.view_map()[*a].loaded),
    {
        match self.find(a) {
            Some(i) => {
                proof {
                    self.lemma_key_at(i as int);
                }
                self.entries[i].1.loaded
            },
            None => false,
        }
    }

    /// The stored info of an address, or the zero-valued account when the
    /// address has no entry. Never fails.
    pub fn get_info(&self, a: &Address) -> (r: AccountInfo)
        requires
            self.wf(),
        ensures
            r@ == self.info_of(*a),
    {
        match self.find(a) {
            Some(i) => {
                proof {
                    self.lemma_key_at(i as int);
                }
                self.entries[i].1.info.duplicate()
            },
            None => AccountInfo::zeroed(),
        }
    }

    /// The stored value of a slot, or zero when the address or the slot has
    /// no entry. Never fails.
    pub fn get_slot(&self, a: &Address, k: &Uint256) -> (r: Uint256)
        requires
            self.wf(),
        ensures
            r == self.slot_of(*a, *k),
    {
        match self.find(a) {
            Some(i) => {
                proof {
                    self.lemma_key_at(i as int);
                    assert(self.entries@[i as int].1.wf());
                }
                let ghost s = self.entries@[i as int].1.storage@;
                let m = self.entries[i].1.storage.len();
                let mut j: usize = 0;
                while j < m
                    invariant
                        self.wf(),
                        i < self.entries@.len(),
                        self.entries@[i as int].0 == *a,
                        self.contains_spec(*a),
                        self.view_map()[*a] == self.entries@[i as int].1.view_spec(),
                        s == self.entries@[i as int].1.storage@,
                        slot_keys_unique(s),
                        m == s.len(),
                        j <= m,
                        forall|t: int| 0 <= t < j ==> s[t].0 != *k,
                    decreases m - j,
                {
                    if self.entries[i].1.storage[j].0 == *k {
                        proof {
                            assert(slot_has_key(s, *k));
                            let t = slot_index_of(s, *k);
                            assert(0 <= t < s.len() && s[t].0 == *k);
                            if t != j as int {
                                assert(false);
                            }
                            assert(slots_map(s)[*k] == s[j as int].1);
                        }
                        return self.entries[i].1.storage[j].1;
                    }
                    j += 1;
                }
                proof {
                    assert(!slot_has_key(s, *k));
                }
                Uint256::zero()
            },
            None => Uint256::zero(),
        }
    }

    /// Whether the store holds an entry for this slot.
    pub fn slot_cached_raw(&self, a: &Address, k: &Uint256) -> (r: bool)
        requires
            self.wf(),
        ensures
            r == (self.contains_spec(*a) && self.view_map()[*a].storage.dom().contains(*k)),
    {
        match self.find(a) {
            Some(i) => {
                proof {
                    self.lemma_key_at(i as int);
                    assert(self.entries@[i as int].1.wf());
                }
                let ghost s = self.entries@[i as int].1.storage@;
                let m = self.entries[i].1.storage.len();
                let mut j: usize = 0;
                while j < m
                    invariant
                        self.wf(),
                        i < self.entries@.len(),
                        self.entries@[i as int].0 == *a,
                        self.contains_spec(*a),
                        self.view_map()[*a] == self.entries@[i as int].1.view_spec(),
                        s == self.entries@[i as int].1.storage@,
                        m == s.len(),
                        j <= m,
                        forall|t: int| 0 <= t < j ==> s[t].0 != *k,
                    decreases m - j,
                {
                    if self.entries[i].1.storage[j].0 == *k {
                        proof {
                            assert(slot_has_key(s, *k));
                        }
                        return true;
                    }
                    j += 1;
                }
                proof {
                    assert(!slot_has_key(s, *k));
                }
                false
            },
            None => false,
        }
    }

    /// Facts tying the entry sequence to the map view, for code that walks
    /// the store.
    pub proof fn lemma_seq_view(&self)
        requires
            self.wf(),
        ensures
            forall|i: int, j: int|
                0 <= i < j < self.seq_view().len() ==> self.seq_view()[i].0 != self.seq_view()[j].0,
            forall|i: int|
                0 <= i < self.seq_view().len() ==> self.view_map().dom().contains(
                    #[trigger] self.seq_view()[i].0,
                ) && self.view_map()[self.seq_view()[i].0] == self.seq_view()[i].1,
            forall|a: Address|
                self.view_map().dom().contains(a) ==> exists|i: int|
                    0 <= i < self.seq_view().len() && (#[trigger] self.seq_view()[i]).0 == a,
    {
        assert forall|i: int|
            0 <= i < self.seq_view().len() implies self.view_map().dom().contains(
            #[trigger] self.seq_view()[i].0,
        ) && self.view_map()[self.seq_view()[i].0] == self.seq_view()[i].1 by {
            self.lemma_key_at(i);
        }
        assert forall|a: Address| self.view_map().dom().contains(a) implies exists|i: int|
            0 <= i < self.seq_view().len() && (#[trigger] self.seq_view()[i]).0 == a by {
            let i = seq_index_of(self.entries@, a);
            assert(self.seq_view()[i].0 == a);
        }
    }

    pub fn count(&self) -> (r: usize)
        ensures
            r == self.seq_view().len(),
    {
        self.entries.len()
    }

    pub fn addr_at(&self, i: usize) -> (r: Address)
        requires
            i < self.seq_view().len(),
        ensures
            r == self.seq_view()[i as int].0,
    {
        self.entries[i].0
    }

    pub fn info_at(&self, i: usize) -> (r: AccountInfo)
        requires
            i < self.seq_view().len(),
        ensures
            r@ == self.seq_view()[i as int].1.info,
    {
        self.entries[i].1.info.duplicate()
    }

    pub fn loaded_at(&self, i: usize) -> (r: bool)
        requires
            i < self.seq_view().len(),
        ensures
            r == self.seq_view()[i as int].1.loaded,
    {
        self.entries[i].1.loaded
    }

    pub fn slots_len_at(&self, i: usize) -> (r: usize)
        requires
            i < self.seq_view().len(),
        ensures
            r == self.slots_seq_at(i as int).len(),
    {
        self.entries[i].1.storage.len()
    }

    /// One cached slot of the account at entry `i`; the pairs carry
    /// pairwise-distinct keys and together they are the account's storage.
    pub fn slot_at(&self, i: usize, j: usize) -> (r: (Uint256, Uint256))
        requires
            self.wf(),
            i < self.seq_view().len(),
            j < self.slots_seq_at(i as int).len(),
        ensures
            r == self.slots_seq_at(i as int)[j as int],
            self.seq_view()[i as int].1.storage.dom().contains(r.0),
            self.seq_view()[i as int].1.storage[r.0] == r.1,
    {
        let r = self.entries[i].1.storage[j];
        proof {
            assert(self.entries@[i as int].1.wf());
            let s = self.entries@[i as int].1.storage@;
            assert(slot_has_key(s, r.0));
            let t = slot_index_of(s, r.0);
            if t != j as int {
                assert(false);
            }
        }
        r
    }

    /// Creates the entry for an address that has none.
    pub fn ensure_entry(&mut self, a: Address, info: AccountInfo, loaded: bool)
        requires
            old(self).wf(),
            !old(self).contains_spec(a),
        ensures
            final(self).wf(),
            final(self).view_map() =~= old(self).view_map().insert(
                a,
                CellModel { info: info@, storage: Map::empty(), loaded },
            ),
    {
        let ghost s1 = self.entries@;
        let cell = AccountCell { info, storage: Vec::new(), loaded };
        proof {
            if seq_has_key(s1, a) {
                let i = seq_index_of(s1, a);
                self.lemma_key_at(i);
                assert(false);
            }
            assert(cell.view_spec().storage =~= Map::<Uint256, Uint256>::empty());
            lemma_cells_push(s1, a, cell);
        }
        self.entries.push((a, cell));
    }

    /// Replaces the info and the loaded flag of an existing entry; the
    /// storage slots are untouched.
    pub fn set_info_raw(&mut self, a: Address, info: AccountInfo, loaded: bool)
        requires
            old(self).wf(),
            old(self).contains_spec(a),
        ensures
            final(self).wf(),
            final(self).view_map() =~= old(self).view_map().insert(
                a,
                CellModel {
                    info: info@,
                    storage: old(self).view_map()[a].storage,
                    loaded,
                },
            ),
    {
        let ghost s1 = self.entries@;
        let i = self.find(&a).unwrap();
        let mut e = self.entries.remove(i);
        e.1.info = info;
        e.1.loaded = loaded;
        self.entries.insert(i, e);
        proof {
            assert(self.entries@ =~= s1.update(i as int, self.entries@[i as int]));
            lemma_cells_update(s1, self.entries@, i as int);
            assert forall|j: int| 0 <= j < self.entries@.len() implies #[trigger] self.entries@[j].1.wf() by {
                assert(s1[j].1.wf());
                if j != i {
                    assert(self.entries@[j] == s1[j]);
                }
            }
        }
    }

    /// Replaces only the balance of an existing entry.
    pub fn set_balance_raw(&mut self, a: Address, bal: Uint256)
        requires
            old(self).wf(),
            old(self).contains_spec(a),
        ensures
            final(self).wf(),
            final(self).view_map() =~= old(self).view_map().insert(
                a,
                CellModel {
                    info: InfoModel { balance: bal, ..old(self).view_map()[a].info },
                    storage: old(self).view_map()[a].storage,
                    loaded: old(self).view_map()[a].loaded,
                },
            ),
    {
        let ghost s1 = self.entries@;
        let i = self.find(&a).unwrap();
        let mut e = self.entries.remove(i);
        e.1.info.balance = bal;
        self.entries.insert(i, e);
        proof {
            assert(self.entries@ =~= s1.update(i as int, self.entries@[i as int]));
            lemma_cells_update(s1, self.entries@, i as int);
            assert forall|j: int| 0 <= j < self.entries@.len() implies #[trigger] self.entries@[j].1.wf() by {
                assert(s1[j].1.wf());
                if j != i {
                    assert(self.entries@[j] == s1[j]);
                }
            }
        }
    }

    /// Inserts or overwrites one storage slot of an existing entry.
    pub fn set_slot_raw(&mut self, a: Address, k: Uint256, v: Uint256)
        requires
            old(self).wf(),
            old(self).contains_spec(a),
        ensures
            final(self).wf(),
            final(self).view_map() =~= old(self).view_map().insert(
                a,
                CellModel {
                    info: old(self).view_map()[a].info,
                    storage: old(self).view_map()[a].storage.insert(k, v),
                    loaded: old(self).view_map()[a].loaded,
                },
            ),
    {
        let ghost s1 = self.entries@;
        let i = self.find(&a).unwrap();
        proof {
            assert(s1[i as int].1.wf());
        }
        let mut e = self.entries.remove(i);
        let ghost t1 = e.1.storage@;
        let m = e.1.storage.len();
        let mut j: usize = 0;
        let mut found: bool = false;
        while j < m && !found
            invariant
                m == e.1.storage@.len(),
                j <= m,
                found ==> j < m && e.1.storage@[j as int].0 == k,
                !found ==> forall|t: int| 0 <= t < j ==> e.1.storage@[t].0 != k,
            decreases m - j + (if found { 0int } else { 1int }),
        {
            if e.1.storage[j].0 == k {
                found = true;
            } else {
                j += 1;
            }
        }
        if found {
            e.1.storage.set(j, (k, v));
            proof {
                lemma_slots_update(t1, e.1.storage@, j as int);
            }
        } else {
            proof {
                assert(!slot_has_key(t1, k));
            }
            e.1.storage.push((k, v));
            proof {
                lemma_slots_push(t1, k, v);
            }
        }
        self.entries.insert(i, e);
        proof {
            assert(self.entries@ =~= s1.update(i as int, self.entries@[i as int]));
            lemma_cells_update(s1, self.entries@, i as int);
        }
    }

    /// Removes one storage slot of an existing entry, if it is there.
    pub fn remove_slot_raw(&mut self, a: Address, k: Uint256)
        requires
            old(self).wf(),
            old(self).contains_spec(a),
        ensures
            final(self).wf(),
            final(self).view_map() =~= old(self).view_map().insert(
                a,
                CellModel {
                    info: old(self).view_map()[a].info,
                    storage: old(self).view_map()[a].storage.remove(k),
                    loaded: old(self).view_map()[a].loaded,
                },
            ),
    {
        let ghost s1 = self.entries@;
        let i = self.find(&a).unwrap();
        proof {
            assert(s1[i as int].1.wf());
        }
        let mut e = self.entries.remove(i);
        let ghost t1 = e.1.storage@;
        let m = e.1.storage.len();
        let mut j: usize = 0;
        let mut found: bool = false;
        while j < m && !found
            invariant
                m == e.1.storage@.len(),
                j <= m,
                found ==> j < m && e.1.storage@[j as int].0 == k,
                !found ==> forall|t: int| 0 <= t < j ==> e.1.storage@[t].0 != k,
            decreases m - j + (if found { 0int } else { 1int }),
        {
            if e.1.storage[j].0 == k {
                found = true;
            } else {
                j += 1;
            }
        }
        if found {
            e.1.storage.remove(j);
            proof {
                lemma_slots_remove(t1, j as int);
            }
        } else {
            proof {
                assert(!slot_has_key(t1, k));
                assert(slots_map(t1) =~= slots_map(t1).remove(k));
            }
        }
        self.entries.insert(i, e);
        proof {
            assert(self.entries@ =~= s1.update(i as int, self.entries@[i as int]));
            lemma_cells_update(s1, self.entries@, i as int);
        }
    }

    /// Removes the whole entry of an address and hands the cell back.
    pub fn take_cell(&mut self, a: Address) -> (r: AccountCell)
        requires
            old(self).wf(),
            old(self).contains_spec(a),
        ensures
            final(self).wf(),
            final(self).view_map() =~= old(self).view_map().remove(a),
            r.wf(),
            r.view_spec() == old(self).view_map()[a],
    {
        let ghost s1 = self.entries@;
        let i = self.find(&a).unwrap();
        proof {
            assert(s1[i as int].1.wf());
            lemma_cells_remove(s1, i as int);
        }
        let e = self.entries.remove(i);
        e.1
    }

    /// Removes the whole entry of an address.
    pub fn remove_entry(&mut self, a: Address)
        requires
            old(self).wf(),
            old(self).contains_spec(a),
        ensures
            final(self).wf(),
            final(self).view_map() =~= old(self).view_map().remove(a),
    {
        let ghost s1 = self.entries@;
        let i = self.find(&a).unwrap();
        self.entries.remove(i);
        proof {
            lemma_cells_remove(s1, i as int);
        }
    }

    /// Looks the code of an account up by its code hash, scanning the
    /// entries. `None` means no stored account carries that hash with its
    /// code present.
    pub fn code_by_hash(&self, h: &Hash256) -> (r: Option<Vec<u8>>)
        requires
            self.wf(),
        ensures
            match r {
                Some(c) => exists|i: int|
                    0 <= i < self.seq_view().len() && (#[trigger] self.seq_view()[i]).1.info.code_hash
                        == *h && self.seq_view()[i].1.info.code == Some(c@),
                None => forall|i: int|
                    0 <= i < self.seq_view().len() ==> !((#[trigger] self.seq_view()[i]).1.info.code_hash
                        == *h && self.seq_view()[i].1.info.code is Some),
            },
    {
        let n = self.entries.len();
        let mut i: usize = 0;
        while i < n
            invariant
                self.wf(),
                n == self.entries@.len(),
                i <= n,
                forall|j: int|
                    0 <= j < i ==> !((#[trigger] self.seq_view()[j]).1.info.code_hash == *h
                        && self.seq_view()[j].1.info.code is Some),
            decreases n - i,
        {
            if self.entries[i].1.info.code_hash == *h {
                match &self.entries[i].1.info.code {
                    Some(c) => {
                        let r = c.clone();
                        proof {
                            assert(self.seq_view()[i as int].1.info.code_hash == *h
                                && self.seq_view()[i as int].1.info.code == Some(r@));
                        }
                        return Some(r);
                    },
                    None => {
                        proof {
                            assert(!(self.seq_view()[i as int].1.info.code is Some));
                        }
                    },
                }
            }
            i += 1;
        }
        None
    }

    /// The slot pairs of entry `i` carry pairwise-distinct keys and are
    /// exactly the entry's storage map.
    pub proof fn lemma_slots_at(&self, i: int)
        requires
            self.wf(),
            0 <= i < self.seq_view().len(),
        ensures
            slot_keys_unique(self.slots_seq_at(i)),
            slots_map(self.slots_seq_at(i)) == self.seq_view()[i].1.storage,
    {
        assert(self.entries@[i].1.wf());
    }

    /// Reinstates a whole account cell for an address that has none; used
    /// when a destroyed account is being restored.
    pub fn insert_cell(&mut self, a: Address, cell: AccountCell)
        requires
            old(self).wf(),
            !old(self).contains_spec(a),
            cell.wf(),
        ensures
            final(self).wf(),
            final(self).view_map() =~= old(self).view_map().insert(a, cell.view_spec()),
    {
        let ghost s1 = self.entries@;
        proof {
            if seq_has_key(s1, a) {
                let i = seq_index_of(s1, a);
                self.lemma_key_at(i);
                assert(false);
            }
            lemma_cells_push(s1, a, cell);
        }
        self.entries.push((a, cell));
    }
}

pub proof fn lemma_slots_update(s1: Seq<(Uint256, Uint256)>, s2: Seq<(Uint256, Uint256)>, i: int)
    requires
        slot_keys_unique(s1),
        0 <= i < s1.len(),
        s2.len() == s1.len(),
        s2[i].0 == s1[i].0,
        forall|j: int| 0 <= j < s1.len() && j != i ==> s2[j] == s1[j],
    ensures
        slot_keys_unique(s2),
        slots_map(s2) =~= slots_map(s1).insert(s1[i].0, s2[i].1),
{
    assert forall|p: int, q: int| 0 <= p < q < s2.len() implies s2[p].0 != s2[q].0 by {
        assert(s2[p].0 == s1[p].0 && s2[q].0 == s1[q].0);
    }
    assert forall|k: Uint256| #[trigger] slot_has_key(s2, k) == slot_has_key(s1, k) by {
        if slot_has_key(s2, k) {
            let j = slot_index_of(s2, k);
            assert(s1[j].0 == s2[j].0);
        }
        if slot_has_key(s1, k) {
            let j = slot_index_of(s1, k);
            assert(s2[j].0 == s1[j].0);
        }
    }
    assert forall|k: Uint256| slot_has_key(s2, k) implies #[trigger] slots_map(s2)[k]
        == slots_map(s1).insert(s1[i].0, s2[i].1)[k] by {
        let j2 = slot_index_of(s2, k);
        if k == s1[i].0 {
            if j2 != i {
                assert(s2[j2].0 == s2[i].0);
                assert(false);
            }
        } else {
            assert(j2 != i);
            let j1 = slot_index_of(s1, k);
            assert(s1[j1].0 == k && s2[j2].0 == k && s1[j2].0 == k);
            if j1 != j2 {
                assert(false);
            }
        }
    }
}

pub proof fn lemma_slots_push(s1: Seq<(Uint256, Uint256)>, k: Uint256, v: Uint256)
    requires
        slot_keys_unique(s1),
        !slot_has_key(s1, k),
    ensures
        slot_keys_unique(s1.push((k, v))),
        slots_map(s1.push((k, v))) =~= slots_map(s1).insert(k, v),
{
    let s2 = s1.push((k, v));
    assert forall|p: int, q: int| 0 <= p < q < s2.len() implies s2[p].0 != s2[q].0 by {
        if q == s1.len() {
            assert(s2[p] == s1[p]);
        }
    }
    assert(s2[s1.len() as int].0 == k);
    assert forall|b: Uint256| #[trigger] slot_has_key(s2, b) == (slot_has_key(s1, b) || b == k) by {
        if slot_has_key(s2, b) {
            let j = slot_index_of(s2, b);
            if j < s1.len() {
                assert(s1[j].0 == b);
            }
        }
        if slot_has_key(s1, b) {
            let j = slot_index_of(s1, b);
            assert(s2[j].0 == b);
        }
    }
    assert forall|b: Uint256| slot_has_key(s2, b) implies #[trigger] slots_map(s2)[b]
        == slots_map(s1).insert(k, v)[b] by {
        let j2 = slot_index_of(s2, b);
        if b == k {
            if j2 != s1.len() {
                assert(s1[j2].0 == k);
                assert(false);
            }
        } else {
            assert(j2 != s1.len());
            assert(s1[j2].0 == b);
            let j1 = slot_index_of(s1, b);
            if j1 != j2 {
                assert(false);
            }
        }
    }
}

proof fn lemma_slots_remove(s1: Seq<(Uint256, Uint256)>, i: int)
    requires
        slot_keys_unique(s1),
        0 <= i < s1.len(),
    ensures
        slot_keys_unique(s1.remove(i)),
        slots_map(s1.remove(i)) =~= slots_map(s1).remove(s1[i].0),
{
    let s2 = s1.remove(i);
    assert forall|p: int, q: int| 0 <= p < q < s2.len() implies s2[p].0 != s2[q].0 by {
        let p1: int = if p < i { p } else { p + 1 };
        let q1: int = if q < i { q } else { q + 1 };
        assert(s2[p] == s1[p1] && s2[q] == s1[q1]);
    }
    assert forall|b: Uint256| #[trigger] slot_has_key(s2, b) == (slot_has_key(s1, b) && b != s1[i].0)
        by {
        if slot_has_key(s2, b) {
            let j = slot_index_of(s2, b);
            let j1: int = if j < i { j } else { j + 1 };
            assert(s1[j1].0 == b);
            if b == s1[i].0 {
                assert(false);
            }
        }
        if slot_has_key(s1, b) && b != s1[i].0 {
            let j = slot_index_of(s1, b);
            if j < i {
                assert(s2[j].0 == b);
            } else {
                assert(j != i);
                assert(s2[j - 1].0 == b);
            }
        }
    }
    assert forall|b: Uint256| slot_has_key(s2, b) implies #[trigger] slots_map(s2)[b]
        == slots_map(s1)[b] by {
        let j2 = slot_index_of(s2, b);
        let j1: int = if j2 < i { j2 } else { j2 + 1 };
        assert(s1[j1].0 == b && s1[j1].1 == s2[j2].1);
        let j = slot_index_of(s1, b);
        if j != j1 {
            assert(false);
        }
    }
}

proof fn lemma_cells_update(s1: Seq<(Address, AccountCell)>, s2: Seq<(Address, AccountCell)>, i: int)
    requires
        seq_keys_unique(s1),
        0 <= i < s1.len(),
        s2.len() == s1.len(),
        s2[i].0 == s1[i].0,
        forall|j: int| 0 <= j < s1.len() && j != i ==> s2[j] == s1[j],
    ensures
        seq_keys_unique(s2),
        cells_map(s2) =~= cells_map(s1).insert(s1[i].0, s2[i].1.view_spec()),
{
    assert forall|p: int, q: int| 0 <= p < q < s2.len() implies s2[p].0 != s2[q].0 by {
        assert(s2[p].0 == s1[p].0 && s2[q].0 == s1[q].0);
    }
    assert forall|k: Address| #[trigger] seq_has_key(s2, k) == seq_has_key(s1, k) by {
        if seq_has_key(s2, k) {
            let j = seq_index_of(s2, k);
            assert(s1[j].0 == s2[j].0);
        }
        if seq_has_key(s1, k) {
            let j = seq_index_of(s1, k);
            assert(s2[j].0 == s1[j].0);
        }
    }
    assert forall|k: Address| seq_has_key(s2, k) implies #[trigger] cells_map(s2)[k]
        == cells_map(s1).insert(s1[i].0, s2[i].1.view_spec())[k] by {
        let j2 = seq_index_of(s2, k);
        if k == s1[i].0 {
            if j2 != i {
                assert(s2[j2].0 == s2[i].0);
                assert(false);
            }
        } else {
            assert(j2 != i);
            let j1 = seq_index_of(s1, k);
            assert(s1[j1].0 == k && s2[j2].0 == k && s1[j2].0 == k);
            if j1 != j2 {
                assert(false);
            }
        }
    }
}

proof fn lemma_cells_push(s1: Seq<(Address, AccountCell)>, a: Address, c: AccountCell)
    requires
        seq_keys_unique(s1),
        !seq_has_key(s1, a),
    ensures
        seq_keys_unique(s1.push((a, c))),
        cells_map(s1.push((a, c))) =~= cells_map(s1).insert(a, c.view_spec()),
{
    let s2 = s1.push((a, c));
    assert forall|p: int, q: int| 0 <= p < q < s2.len() implies s2[p].0 != s2[q].0 by {
        if q == s1.len() {
            assert(s2[p] == s1[p]);
        }
    }
    assert(s2[s1.len() as int].0 == a);
    assert forall|b: Address| #[trigger] seq_has_key(s2, b) == (seq_has_key(s1, b) || b == a) by {
        if seq_has_key(s2, b) {
            let j = seq_index_of(s2, b);
            if j < s1.len() {
                assert(s1[j].0 == b);
            }
        }
        if seq_has_key(s1, b) {
            let j = seq_index_of(s1, b);
            assert(s2[j].0 == b);
        }
    }
    assert forall|b: Address| seq_has_key(s2, b) implies #[trigger] cells_map(s2)[b]
        == cells_map(s1).insert(a, c.view_spec())[b] by {
        let j2 = seq_index_of(s2, b);
        if b == a {
            if j2 != s1.len() {
                assert(s1[j2].0 == a);
                assert(false);
            }
        } else {
            assert(j2 != s1.len());
            assert(s1[j2].0 == b);
            let j1 = seq_index_of(s1, b);
            if j1 != j2 {
                assert(false);
            }
        }
    }
}

proof fn lemma_cells_remove(s1: Seq<(Address, AccountCell)>, i: int)
    requires
        seq_keys_unique(s1),
        0 <= i < s1.len(),
    ensures
        seq_keys_unique(s1.remove(i)),
        cells_map(s1.remove(i)) =~= cells_map(s1).remove(s1[i].0),
{
    let s2 = s1.remove(i);
    assert forall|p: int, q: int| 0 <= p < q < s2.len() implies s2[p].0 != s2[q].0 by {
        let p1: int = if p < i { p } else { p + 1 };
        let q1: int = if q < i { q } else { q + 1 };
        assert(s2[p] == s1[p1] && s2[q] == s1[q1]);
    }
    assert forall|b: Address| #[trigger] seq_has_key(s2, b) == (seq_has_key(s1, b) && b != s1[i].0)
        by {
        if seq_has_key(s2, b) {
            let j = seq_index_of(s2, b);
            let j1: int = if j < i { j } else { j + 1 };
            assert(s1[j1].0 == b);
            if b == s1[i].0 {
                assert(false);
            }
        }
        if seq_has_key(s1, b) && b != s1[i].0 {
            let j = seq_index_of(s1, b);
            if j < i {
                assert(s2[j].0 == b);
            } else {
                assert(j != i);
                assert(s2[j - 1].0 == b);
            }
        }
    }
    assert forall|b: Address| seq_has_key(s2, b) implies #[trigger] cells_map(s2)[b]
        == cells_map(s1)[b] by {
        let j2 = seq_index_of(s2, b);
        let j1: int = if j2 < i { j2 } else { j2 + 1 };
        assert(s1[j1].0 == b && s1[j1].1 == s2[j2].1);
        let j = seq_index_of(s1, b);
        if j != j1 {
            assert(false);
        }
    }
}

} // verus!
