//! The journaled execution context: every mutation made while a checkpoint
//! is outstanding is recorded as an entry sufficient to undo it, so that the
//! store can be rolled back to any held checkpoint, entry by entry, in
//! reverse order.
use vstd::prelude::*;

use crate::account::{AccountInfo, InfoModel};
use crate::store::{AccountCell, AccountStore, CellModel};
use crate::values::{Address, Hash256, Uint256};

verus! {

/// One emitted log: the emitting address, its topics, and its payload.
#[derive(Debug)]
pub struct Log {
    pub address: Address,
    pub topics: Vec<Hash256>,
    pub data: Vec<u8>,
}

/// The mathematical shape of a log.
pub struct LogModel {
    pub address: Address,
    pub topics: Seq<Hash256>,
    pub data: Seq<u8>,
}

impl View for Log {
    type V = LogModel;

    open spec fn view(&self) -> LogModel {
        LogModel { address: self.address, topics: self.topics@, data: self.data@ }
    }
}

impl Log {
    pub fn duplicate(&self) -> (r: Self)
        ensures
            r@ == self@,
    {
        Log { address: self.address, topics: self.topics.clone(), data: self.data.clone() }
    }
}

/// One undoable mutation, tagged with what changed and carrying the exact
/// prior value recorded at mutation time.
#[derive(Debug)]
pub enum JournalEntry {
    /// A store entry was created for an address that had none.
    Created { addr: Address },
    /// The balance of an existing entry was replaced.
    Balance { addr: Address, prior: Uint256 },
    /// The whole info of an existing entry was replaced; `prior_loaded` is
    /// the loaded flag it had.
    Info { addr: Address, prior: AccountInfo, prior_loaded: bool },
    /// One storage slot was written; `prior` is `None` when the slot had no
    /// entry before.
    Slot { addr: Address, key: Uint256, prior: Option<Uint256> },
    /// A whole account was destroyed; `prior` is the full cell it held.
    Destroyed { addr: Address, prior: AccountCell },
    /// One log was appended.
    LogEmitted,
}

/// The mathematical shape of a journal entry.
pub enum EntryModel {
    Created { addr: Address },
    Balance { addr: Address, prior: Uint256 },
    Info { addr: Address, prior: InfoModel, prior_loaded: bool },
    Slot { addr: Address, key: Uint256, prior: Option<Uint256> },
    Destroyed { addr: Address, prior: CellModel },
    LogEmitted,
}

impl View for JournalEntry {
    type V = EntryModel;

    open spec fn view(&self) -> EntryModel {
        match self {
            JournalEntry::Created { addr } => EntryModel::Created { addr: *addr },
            JournalEntry::Balance { addr, prior } => EntryModel::Balance {
                addr: *addr,
                prior: *prior,
            },
            JournalEntry::Info { addr, prior, prior_loaded } => EntryModel::Info {
                addr: *addr,
                prior: prior@,
                prior_loaded: *prior_loaded,
            },
            JournalEntry::Slot { addr, key, prior } => EntryModel::Slot {
                addr: *addr,
                key: *key,
                prior: *prior,
            },
            JournalEntry::Destroyed { addr, prior } => EntryModel::Destroyed {
                addr: *addr,
                prior: prior.view_spec(),
            },
            JournalEntry::LogEmitted => EntryModel::LogEmitted,
        }
    }
}

/// Undoes one journal entry on the account map, restoring the recorded
/// prior value. Total: an entry whose address is gone leaves the map as it
/// is, except that a destroyed account is always reinstated.
pub open spec fn undo_entry(m: Map<Address, CellModel>, e: EntryModel) -> Map<Address, CellModel> {
    match e {
        EntryModel::Created { addr } => m.remove(addr),
        EntryModel::Balance { addr, prior } => if m.dom().contains(addr) {
            m.insert(
                addr,
                CellModel {
                    info: InfoModel { balance: prior, ..m[addr].info },
                    storage: m[addr].storage,
                    loaded: m[addr].loaded,
                },
            )
        } else {
            m
        },
        EntryModel::Info { addr, prior, prior_loaded } => if m.dom().contains(addr) {
            m.insert(
                addr,
                CellModel { info: prior, storage: m[addr].storage, loaded: prior_loaded },
            )
        } else {
            m
        },
        EntryModel::Slot { addr, key, prior } => if m.dom().contains(addr) {
            m.insert(
                addr,
                CellModel {
                    info: m[addr].info,
                    storage: match prior {
                        Some(v) => m[addr].storage.insert(key, v),
                        None => m[addr].storage.remove(key),
                    },
                    loaded: m[addr].loaded,
                },
            )
        } else {
            m
        },
        EntryModel::Destroyed { addr, prior } => m.insert(addr, prior),
        EntryModel::LogEmitted => m,
    }
}

/// Undoes the journal entries with index `k` or higher, last first: the
/// account map as it stood when the journal had length `k`.
pub open spec fn rewind(
    m: Map<Address, CellModel>,
    j: Seq<EntryModel>,
    k: int,
) -> Map<Address, CellModel>
    decreases j.len(),
{
    if j.len() <= k || j.len() == 0 {
        m
    } else {
        rewind(undo_entry(m, j.last()), j.drop_last(), k)
    }
}

/// The mathematical state of a journaled context. A checkpoint is the pair
/// (journal length, log count) at snapshot time.
#[verifier::ext_equal]
pub struct CtxModel {
    pub accounts: Map<Address, CellModel>,
    pub logs: Seq<LogModel>,
    pub journal: Seq<EntryModel>,
    pub checkpoints: Seq<(nat, nat)>,
}

/// Well-formedness of the model: every held checkpoint points into the
/// journal and the log list, and checkpoints are ordered as they were
/// taken.
pub open spec fn model_wf(s: CtxModel) -> bool {
    &&& forall|i: int|
        0 <= i < s.checkpoints.len() ==> (#[trigger] s.checkpoints[i]).0 <= s.journal.len()
            && s.checkpoints[i].1 <= s.logs.len()
    &&& forall|i: int, j: int|
        0 <= i <= j < s.checkpoints.len() ==> (#[trigger] s.checkpoints[i]).0
            <= (#[trigger] s.checkpoints[j]).0 && s.checkpoints[i].1 <= s.checkpoints[j].1
}

/// One write against the ledger, as the journaling layer sees it.
pub enum WriteOp {
    SetBalance { addr: Address, value: Uint256 },
    SetStorage { addr: Address, key: Uint256, value: Uint256 },
    InsertInfo { addr: Address, info: InfoModel },
    Destroy { addr: Address },
}

/// The journal entries that one write appends: nothing while no checkpoint
/// is outstanding, else the one record that undoes it.
pub open spec fn write_entries(s: CtxModel, op: WriteOp) -> Seq<EntryModel> {
    if s.checkpoints.len() == 0 {
        Seq::empty()
    } else {
        match op {
            WriteOp::SetBalance { addr, value } => if s.accounts.dom().contains(addr) {
                seq![EntryModel::Balance { addr, prior: s.accounts[addr].info.balance }]
            } else {
                seq![EntryModel::Created { addr }]
            },
            WriteOp::SetStorage { addr, key, value } => if s.accounts.dom().contains(addr) {
                seq![
                    EntryModel::Slot {
                        addr,
                        key,
                        prior: if s.accounts[addr].storage.dom().contains(key) {
                            Some(s.accounts[addr].storage[key])
                        } else {
                            None
                        },
                    },
                ]
            } else {
                seq![EntryModel::Created { addr }]
            },
            WriteOp::InsertInfo { addr, info } => if s.accounts.dom().contains(addr) {
                seq![
                    EntryModel::Info {
                        addr,
                        prior: s.accounts[addr].info,
                        prior_loaded: s.accounts[addr].loaded,
                    },
                ]
            } else {
                seq![EntryModel::Created { addr }]
            },
            WriteOp::Destroy { addr } => if s.accounts.dom().contains(addr) {
                seq![EntryModel::Destroyed { addr, prior: s.accounts[addr] }]
            } else {
                Seq::empty()
            },
        }
    }
}

/// The account map after one write.
pub open spec fn write_accounts(
    m: Map<Address, CellModel>,
    op: WriteOp,
) -> Map<Address, CellModel> {
    match op {
        WriteOp::SetBalance { addr, value } => if m.dom().contains(addr) {
            m.insert(
                addr,
                CellModel {
                    info: InfoModel { balance: value, ..m[addr].info },
                    storage: m[addr].storage,
                    loaded: m[addr].loaded,
                },
            )
        } else {
            m.insert(
                addr,
                CellModel {
                    info: InfoModel { balance: value, ..InfoModel::zero() },
                    storage: Map::empty(),
                    loaded: true,
                },
            )
        },
        WriteOp::SetStorage { addr, key, value } => if m.dom().contains(addr) {
            m.insert(
                addr,
                CellModel {
                    info: m[addr].info,
                    storage: m[addr].storage.insert(key, value),
                    loaded: m[addr].loaded,
                },
            )
        } else {
            m.insert(
                addr,
                CellModel {
                    info: InfoModel::zero(),
                    storage: Map::empty().insert(key, value),
                    loaded: true,
                },
            )
        },
        WriteOp::InsertInfo { addr, info } => if m.dom().contains(addr) {
            m.insert(
                addr,
                CellModel { info, storage: m[addr].storage, loaded: true },
            )
        } else {
            m.insert(addr, CellModel { info, storage: Map::empty(), loaded: true })
        },
        WriteOp::Destroy { addr } => m.remove(addr),
    }
}

/// The whole state after one write: accounts changed, the undo record
/// appended, logs and checkpoints untouched.
pub open spec fn apply_write(s: CtxModel, op: WriteOp) -> CtxModel {
    CtxModel {
        accounts: write_accounts(s.accounts, op),
        logs: s.logs,
        journal: s.journal + write_entries(s, op),
        checkpoints: s.checkpoints,
    }
}

/// The state after a sequence of writes, first to last.
pub open spec fn apply_writes(s: CtxModel, ops: Seq<WriteOp>) -> CtxModel
    decreases ops.len(),
{
    if ops.len() == 0 {
        s
    } else {
        apply_write(apply_writes(s, ops.drop_last()), ops.last())
    }
}

/// Applying writes composes over concatenation of the write sequences.
pub proof fn lemma_apply_writes_concat(s: CtxModel, a: Seq<WriteOp>, b: Seq<WriteOp>)
    ensures
        apply_writes(s, a + b) == apply_writes(apply_writes(s, a), b),
    decreases b.len(),
{
    if b.len() == 0 {
        assert(a + b =~= a);
    } else {
        assert((a + b).drop_last() =~= a + b.drop_last());
        assert((a + b).last() == b.last());
        lemma_apply_writes_concat(s, a, b.drop_last());
    }
}

/// Writes never touch the checkpoint stack or the logs.
pub proof fn lemma_apply_writes_keeps(s: CtxModel, ops: Seq<WriteOp>)
    ensures
        apply_writes(s, ops).checkpoints == s.checkpoints,
        apply_writes(s, ops).logs == s.logs,
    decreases ops.len(),
{
    if ops.len() > 0 {
        lemma_apply_writes_keeps(s, ops.drop_last());
    }
}

/// Applying one more write unrolls the fold by one step.
pub proof fn lemma_apply_writes_push(s: CtxModel, a: Seq<WriteOp>, op: WriteOp)
    ensures
        apply_writes(s, a.push(op)) == apply_write(apply_writes(s, a), op),
{
    assert(a.push(op).drop_last() =~= a);
}

/// Taking a snapshot: the pair of current journal length and log count is
/// handed out and pushed on the checkpoint stack.
pub open spec fn snapshot_step(s: CtxModel) -> (CtxModel, (nat, nat)) {
    (
        CtxModel {
            accounts: s.accounts,
            logs: s.logs,
            journal: s.journal,
            checkpoints: s.checkpoints.push((s.journal.len(), s.logs.len())),
        },
        (s.journal.len(), s.logs.len()),
    )
}

/// Committing: every outstanding checkpoint is discarded without undoing
/// anything; the current state becomes the new baseline.
pub open spec fn commit_step(s: CtxModel) -> CtxModel {
    CtxModel {
        accounts: s.accounts,
        logs: s.logs,
        journal: Seq::empty(),
        checkpoints: Seq::empty(),
    }
}

/// The first position of a checkpoint value on the stack.
pub open spec fn cp_first_index(cps: Seq<(nat, nat)>, t: (nat, nat)) -> int
    decreases cps.len(),
{
    if cps.len() == 0 {
        0
    } else if cps.first() == t {
        0
    } else {
        1 + cp_first_index(cps.drop_first(), t)
    }
}

pub proof fn lemma_cp_first_index(cps: Seq<(nat, nat)>, t: (nat, nat))
    requires
        cps.contains(t),
    ensures
        0 <= cp_first_index(cps, t) < cps.len(),
        cps[cp_first_index(cps, t)] == t,
        forall|j: int| 0 <= j < cp_first_index(cps, t) ==> cps[j] != t,
    decreases cps.len(),
{
    if cps.first() == t {
    } else {
        let i = choose|i: int| 0 <= i < cps.len() && cps[i] == t;
        assert(cps.drop_first()[i - 1] == t);
        assert(cps.drop_first().contains(t));
        lemma_cp_first_index(cps.drop_first(), t);
        assert forall|j: int| 0 <= j < cp_first_index(cps, t) implies cps[j] != t by {
            if j > 0 {
                assert(cps.drop_first()[j - 1] != t);
            }
        }
    }
}

/// Reverting to a token: every journal entry recorded after it is undone in
/// reverse order, logs recorded after it are discarded, and the token and
/// every checkpoint taken after it are removed. Fails when no checkpoint is
/// outstanding, or when the token is not among those held.
pub open spec fn revert_step(s: CtxModel, t: (nat, nat)) -> Result<CtxModel, crate::errors::EvmError> {
    if s.checkpoints.len() == 0 {
        Err(crate::errors::EvmError::NoCheckpointToRevert)
    } else if !s.checkpoints.contains(t) {
        Err(crate::errors::EvmError::InvalidCheckpoint)
    } else {
        Ok(
            CtxModel {
                accounts: rewind(s.accounts, s.journal, t.0 as int),
                logs: s.logs.take(t.1 as int),
                journal: s.journal.take(t.0 as int),
                checkpoints: s.checkpoints.take(cp_first_index(s.checkpoints, t)),
            },
        )
    }
}

/// Whether every destroyed-account record in the journal carries a
/// well-formed cell, so that undoing it can reinstate the cell.
pub open spec fn journal_cells_wf(j: Seq<JournalEntry>) -> bool {
    forall|i: int|
        0 <= i < j.len() ==> (#[trigger] j[i] matches JournalEntry::Destroyed { prior, .. }
            ==> prior.wf())
}

/// Undoing one more entry: rewinding past a just-appended entry equals
/// undoing it and rewinding the rest.
pub proof fn lemma_rewind_push(
    m2: Map<Address, CellModel>,
    m1: Map<Address, CellModel>,
    j: Seq<EntryModel>,
    e: EntryModel,
    k: int,
)
    requires
        undo_entry(m2, e) == m1,
        0 <= k <= j.len(),
    ensures
        rewind(m2, j.push(e), k) == rewind(m1, j, k),
{
    assert(j.push(e).drop_last() =~= j);
    assert(j.push(e).last() == e);
}

/// The journaled execution context: the store, the logs, the journal of
/// undo records, and the held checkpoints.
#[derive(Debug)]
pub struct JournaledContext {
    store: AccountStore,
    logs: Vec<Log>,
    journal: Vec<JournalEntry>,
    checkpoints: Vec<crate::checkpoint::JournalCheckpoint>,
}

impl JournaledContext {
    /// The context as its mathematical state.
    pub closed spec fn model(&self) -> CtxModel {
        CtxModel {
            accounts: self.store.view_map(),
            logs: self.logs@.map_values(|l: Log| l@),
            journal: self.journal@.map_values(|e: JournalEntry| e@),
            checkpoints: self.checkpoints@.map_values(
                |c: crate::checkpoint::JournalCheckpoint| (c.journal_i as nat, c.log_i as nat),
            ),
        }
    }

    pub closed spec fn wf(&self) -> bool {
        self.store.wf() && model_wf(self.model()) && journal_cells_wf(self.journal@)
    }

    /// The entries of the store in insertion order, for walking it.
    pub closed spec fn store_seq(&self) -> Seq<(Address, CellModel)> {
        self.store.seq_view()
    }

    pub fn new() -> (r: Self)
        ensures
            r.wf(),
            r.model() =~= (CtxModel {
                accounts: Map::empty(),
                logs: Seq::empty(),
                journal: Seq::empty(),
                checkpoints: Seq::empty(),
            }),
            r.store_seq() =~= Seq::<(Address, CellModel)>::empty(),
    {
        let r = JournaledContext {
            store: AccountStore::new(),
            logs: Vec::new(),
            journal: Vec::new(),
            checkpoints: Vec::new(),
        };
        proof {
            assert(r.model().logs =~= Seq::<LogModel>::empty());
            assert(r.model().journal =~= Seq::<EntryModel>::empty());
            assert(r.model().checkpoints =~= Seq::<(nat, nat)>::empty());
        }
        r
    }

    pub fn journal_len(&self) -> (r: usize)
        ensures
            r == self.model().journal.len(),
    {
        let r = self.journal.len();
        proof {
            assert(self.model().journal.len() == self.journal@.len());
        }
        r
    }

    pub fn depth(&self) -> (r: usize)
        ensures
            r == self.model().checkpoints.len(),
    {
        let r = self.checkpoints.len();
        proof {
            assert(self.model().checkpoints.len() == self.checkpoints@.len());
        }
        r
    }

    pub fn log_count(&self) -> (r: usize)
        ensures
            r == self.model().logs.len(),
    {
        let r = self.logs.len();
        proof {
            assert(self.model().logs.len() == self.logs@.len());
        }
        r
    }

    /// The held checkpoint tokens, oldest first.
    pub fn checkpoint_list(&self) -> (r: Vec<crate::checkpoint::JournalCheckpoint>)
        ensures
            r@.len() == self.model().checkpoints.len(),
            forall|i: int|
                0 <= i < r@.len() ==> (#[trigger] r@[i]).journal_i as nat
                    == self.model().checkpoints[i].0 && r@[i].log_i as nat
                    == self.model().checkpoints[i].1,
    {
        let mut out: Vec<crate::checkpoint::JournalCheckpoint> = Vec::new();
        let n = self.checkpoints.len();
        let mut i: usize = 0;
        while i < n
            invariant
                n == self.checkpoints@.len(),
                i <= n,
                out@.len() == i,
                forall|j: int| 0 <= j < i ==> #[trigger] out@[j] == self.checkpoints@[j],
            decreases n - i,
        {
            out.push(self.checkpoints[i]);
            i += 1;
        }
        proof {
            assert(self.model().checkpoints.len() == self.checkpoints@.len());
        }
        out
    }

    /// Records the current journal length and log count as a new
    /// checkpoint. Pure bookkeeping; cannot fail.
    pub fn snapshot(&mut self) -> (r: crate::checkpoint::JournalCheckpoint)
        requires
            old(self).wf(),
        ensures
            final(self).wf(),
            final(self).model() == snapshot_step(old(self).model()).0,
            (r.journal_i as nat, r.log_i as nat) == snapshot_step(old(self).model()).1,
    {
        let token = crate::checkpoint::JournalCheckpoint {
            log_i: self.logs.len(),
            journal_i: self.journal.len(),
        };
        self.checkpoints.push(token);
        proof {
            let m0 = old(self).model();
            assert(self.model().checkpoints =~= m0.checkpoints.push(
                (m0.journal.len(), m0.logs.len()),
            ));
            assert(self.model() =~= snapshot_step(m0).0);
            assert(model_wf(self.model()));
        }
        token
    }

    /// Drops every outstanding checkpoint and the journal: the current
    /// state is the new baseline. Idempotent; cannot fail.
    pub fn commit(&mut self)
        requires
            old(self).wf(),
        ensures
            final(self).wf(),
            final(self).model() == commit_step(old(self).model()),
    {
        self.checkpoints.clear();
        self.journal.clear();
        proof {
            assert(self.model().journal =~= Seq::<EntryModel>::empty());
            assert(self.model().checkpoints =~= Seq::<(nat, nat)>::empty());
            assert(self.model() =~= commit_step(old(self).model()));
        }
    }
}

impl JournaledContext {
    /// Rolls the state back to a held checkpoint: every journal entry
    /// recorded after it is undone in reverse order, each undo restoring
    /// the prior value recorded at mutation time; logs past its log count
    /// are discarded; the token and every checkpoint taken after it are
    /// removed. Fails with `NoCheckpointToRevert` when none is
    /// outstanding, and with `InvalidCheckpoint` when the token is not
    /// among those held.
    pub fn revert(&mut self, token: crate::checkpoint::JournalCheckpoint) -> (r: Result<
        (),
        crate::errors::EvmError,
    >)
        requires
            old(self).wf(),
        ensures
            final(self).wf(),
            ({
                let res = revert_step(
                    old(self).model(),
                    (token.journal_i as nat, token.log_i as nat),
                );
                match r {
                    Ok(u) => res is Ok && final(self).model() == res->Ok_0,
                    Err(e) => res is Err && e == res->Err_0 && final(self).model() == old(
                        self,
                    ).model(),
                }
            }),
    {
        let ghost m0 = self.model();
        let ghost t = (token.journal_i as nat, token.log_i as nat);
        if self.checkpoints.len() == 0 {
            proof {
                assert(m0.checkpoints.len() == self.checkpoints@.len());
            }
            return Err(crate::errors::EvmError::NoCheckpointToRevert);
        }
        let n = self.checkpoints.len();
        let mut p: usize = 0;
        let mut found: bool = false;
        while p < n && !found
            invariant
                n == self.checkpoints@.len(),
                p <= n,
                found ==> p < n && self.checkpoints@[p as int] == token,
                forall|j: int| 0 <= j < p ==> self.checkpoints@[j] != token,
            decreases n - p + (if found { 0int } else { 1int }),
        {
            if self.checkpoints[p] == token {
                found = true;
            } else {
                p += 1;
            }
        }
        proof {
            assert(m0.checkpoints.len() == self.checkpoints@.len());
            assert forall|j: int| 0 <= j < n implies (m0.checkpoints[j] == t) == (
            self.checkpoints@[j] == token) by {
                assert(m0.checkpoints[j] == (
                    self.checkpoints@[j].journal_i as nat,
                    self.checkpoints@[j].log_i as nat,
                ));
            }
        }
        if !found {
            proof {
                if m0.checkpoints.contains(t) {
                    let j = choose|j: int|
                        0 <= j < m0.checkpoints.len() && m0.checkpoints[j] == t;
                    assert(self.checkpoints@[j] == token);
                    assert(false);
                }
            }
            return Err(crate::errors::EvmError::InvalidCheckpoint);
        }
        proof {
            assert(m0.checkpoints[p as int] == t);
            assert(m0.checkpoints.contains(t));
            lemma_cp_first_index(m0.checkpoints, t);
            let fi = cp_first_index(m0.checkpoints, t);
            if fi < p as int {
                assert(self.checkpoints@[fi] == token);
                assert(false);
            }
            if (p as int) < fi {
                assert(m0.checkpoints[p as int] != t);
                assert(false);
            }
            // The token is a held checkpoint, so its indices lie inside
            // the journal and the log list.
            assert(t.0 <= m0.journal.len() && t.1 <= m0.logs.len());
        }
        let target = token.journal_i;
        let ghost orig_journal = self.journal@;
        while self.journal.len() > target
            invariant
                self.store.wf(),
                journal_cells_wf(self.journal@),
                target <= self.journal@.len(),
                self.journal@.len() <= orig_journal.len(),
                self.journal@ =~= orig_journal.take(self.journal@.len() as int),
                orig_journal == old(self).journal@,
                rewind(
                    self.store.view_map(),
                    self.journal@.map_values(|e: JournalEntry| e@),
                    target as int,
                ) == rewind(m0.accounts, m0.journal, target as int),
                self.logs@ == old(self).logs@,
                self.checkpoints@ == old(self).checkpoints@,
            decreases self.journal.len(),
        {
            let ghost m_pre = self.store.view_map();
            let ghost j_pre = self.journal@.map_values(|e: JournalEntry| e@);
            let e = match self.journal.pop() {
                Some(e) => e,
                None => {
                    proof {
                        assert(false);
                    }
                    JournalEntry::LogEmitted
                },
            };
            proof {
                assert(orig_journal.take(self.journal@.len() as int) =~= orig_journal.take(
                    self.journal@.len() as int + 1,
                ).drop_last());
                assert(j_pre.drop_last() =~= self.journal@.map_values(|e2: JournalEntry| e2@));
                assert(j_pre.last() == e@);
            }
            undo_apply(&mut self.store, e);
            proof {
                assert(j_pre =~= self.journal@.map_values(|e2: JournalEntry| e2@).push(e@));
                lemma_rewind_push(
                    m_pre,
                    self.store.view_map(),
                    self.journal@.map_values(|e2: JournalEntry| e2@),
                    e@,
                    target as int,
                );
            }
        }
        self.logs.truncate(token.log_i);
        self.checkpoints.truncate(p);
        proof {
            let res = revert_step(m0, t)->Ok_0;
            assert(self.model().journal =~= m0.journal.take(t.0 as int)) by {
                assert(self.journal@ =~= orig_journal.take(t.0 as int));
                assert forall|i: int| 0 <= i < t.0 implies m0.journal[i] == self.model().journal[i]
                by {
                    assert(self.journal@[i] == orig_journal[i]);
                }
            }
            assert(self.model().logs =~= m0.logs.take(t.1 as int));
            assert(self.model().checkpoints =~= m0.checkpoints.take(p as int));
            assert(self.model().accounts == res.accounts) by {
                assert(self.journal@.len() == target);
                assert(rewind(
                    self.store.view_map(),
                    self.journal@.map_values(|e: JournalEntry| e@),
                    target as int,
                ) == self.store.view_map());
            }
            assert(self.model() =~= res);
            assert(model_wf(self.model())) by {
                assert forall|i: int|
                    0 <= i < self.model().checkpoints.len() implies (#[trigger] self.model().checkpoints[i]).0
                    <= self.model().journal.len() && self.model().checkpoints[i].1
                    <= self.model().logs.len() by {
                    assert(self.model().checkpoints[i] == m0.checkpoints[i]);
                    assert(m0.checkpoints[i].0 <= m0.checkpoints[p as int].0);
                    assert(m0.checkpoints[i].1 <= m0.checkpoints[p as int].1);
                }
            }
        }
        Ok(())
    }
}

/// The state after appending a batch of logs in order: the logs land at
/// the end, and while a checkpoint is outstanding one pacing record per
/// log lands in the journal.
pub open spec fn append_logs_step(s: CtxModel, logs: Seq<LogModel>) -> CtxModel {
    CtxModel {
        accounts: s.accounts,
        logs: s.logs + logs,
        journal: if s.checkpoints.len() == 0 {
            s.journal
        } else {
            s.journal + Seq::new(logs.len(), |i: int| EntryModel::LogEmitted)
        },
        checkpoints: s.checkpoints,
    }
}

/// The state after appending one log: the log is pushed, and while a
/// checkpoint is outstanding a pacing record lands in the journal.
pub open spec fn append_log_step(s: CtxModel, l: LogModel) -> CtxModel {
    CtxModel {
        accounts: s.accounts,
        logs: s.logs.push(l),
        journal: if s.checkpoints.len() == 0 {
            s.journal
        } else {
            s.journal.push(EntryModel::LogEmitted)
        },
        checkpoints: s.checkpoints,
    }
}

impl JournaledContext {
    proof fn lemma_write_wf(&self, m0: CtxModel, op: WriteOp)
        requires
            model_wf(m0),
            self.model().logs == m0.logs,
            self.model().checkpoints == m0.checkpoints,
            self.model().journal == m0.journal + write_entries(m0, op),
        ensures
            model_wf(self.model()),
    {
        assert(self.model().journal.len() >= m0.journal.len());
    }

    /// Sets the balance of an address, creating its entry if there is
    /// none; the write is journaled while a checkpoint is outstanding.
    pub fn set_balance(&mut self, addr: Address, value: Uint256)
        requires
            old(self).wf(),
        ensures
            final(self).wf(),
            final(self).model() == apply_write(
                old(self).model(),
                WriteOp::SetBalance { addr, value },
            ),
    {
        let ghost m0 = self.model();
        let ghost op = WriteOp::SetBalance { addr, value };
        if self.store.contains(&addr) {
            if self.checkpoints.len() > 0 {
                let prior = self.store.get_info(&addr).balance;
                self.journal.push(JournalEntry::Balance { addr, prior });
            }
            self.store.set_balance_raw(addr, value);
        } else {
            if self.checkpoints.len() > 0 {
                self.journal.push(JournalEntry::Created { addr });
            }
            self.store.ensure_entry(addr, AccountInfo::zeroed(), true);
            self.store.set_balance_raw(addr, value);
        }
        proof {
            assert(self.model().journal =~= m0.journal + write_entries(m0, op));
            assert(self.model().accounts =~= write_accounts(m0.accounts, op));
            assert(self.model() =~= apply_write(m0, op));
            self.lemma_write_wf(m0, op);
            assert forall|i: int|
                0 <= i < self.journal@.len() implies (#[trigger] self.journal@[i] matches JournalEntry::Destroyed {
                prior,
                ..
            } ==> prior.wf()) by {
                if i < old(self).journal@.len() {
                    assert(self.journal@[i] == old(self).journal@[i]);
                    assert(journal_cells_wf(old(self).journal@));
                }
            }
        }
    }

    /// Writes one storage slot of an address, creating its entry if there
    /// is none; the write is journaled while a checkpoint is outstanding.
    pub fn set_storage(&mut self, addr: Address, key: Uint256, value: Uint256)
        requires
            old(self).wf(),
        ensures
            final(self).wf(),
            final(self).model() == apply_write(
                old(self).model(),
                WriteOp::SetStorage { addr, key, value },
            ),
    {
        let ghost m0 = self.model();
        let ghost op = WriteOp::SetStorage { addr, key, value };
        if self.store.contains(&addr) {
            if self.checkpoints.len() > 0 {
                let prior = if self.store.slot_cached_raw(&addr, &key) {
                    Some(self.store.get_slot(&addr, &key))
                } else {
                    None
                };
                self.journal.push(JournalEntry::Slot { addr, key, prior });
            }
            self.store.set_slot_raw(addr, key, value);
        } else {
            if self.checkpoints.len() > 0 {
                self.journal.push(JournalEntry::Created { addr });
            }
            self.store.ensure_entry(addr, AccountInfo::zeroed(), true);
            self.store.set_slot_raw(addr, key, value);
        }
        proof {
            assert(self.model().journal =~= m0.journal + write_entries(m0, op));
            assert(self.model().accounts =~= write_accounts(m0.accounts, op));
            assert(self.model() =~= apply_write(m0, op));
            self.lemma_write_wf(m0, op);
            assert forall|i: int|
                0 <= i < self.journal@.len() implies (#[trigger] self.journal@[i] matches JournalEntry::Destroyed {
                prior,
                ..
            } ==> prior.wf()) by {
                if i < old(self).journal@.len() {
                    assert(self.journal@[i] == old(self).journal@[i]);
                    assert(journal_cells_wf(old(self).journal@));
                }
            }
        }
    }

    /// Replaces the account information of an address, creating its entry
    /// if there is none. The storage slots of the address are untouched.
    pub fn insert_info(&mut self, addr: Address, info: AccountInfo)
        requires
            old(self).wf(),
        ensures
            final(self).wf(),
            final(self).model() == apply_write(
                old(self).model(),
                WriteOp::InsertInfo { addr, info: info@ },
            ),
    {
        let ghost m0 = self.model();
        let ghost op = WriteOp::InsertInfo { addr, info: info@ };
        if self.store.contains(&addr) {
            if self.checkpoints.len() > 0 {
                let prior = self.store.get_info(&addr);
                let prior_loaded = self.store.is_loaded(&addr);
                self.journal.push(JournalEntry::Info { addr, prior, prior_loaded });
            }
            self.store.set_info_raw(addr, info, true);
        } else {
            if self.checkpoints.len() > 0 {
                self.journal.push(JournalEntry::Created { addr });
            }
            self.store.ensure_entry(addr, info, true);
        }
        proof {
            assert(self.model().journal =~= m0.journal + write_entries(m0, op));
            assert(self.model().accounts =~= write_accounts(m0.accounts, op));
            assert(self.model() =~= apply_write(m0, op));
            self.lemma_write_wf(m0, op);
            assert forall|i: int|
                0 <= i < self.journal@.len() implies (#[trigger] self.journal@[i] matches JournalEntry::Destroyed {
                prior,
                ..
            } ==> prior.wf()) by {
                if i < old(self).journal@.len() {
                    assert(self.journal@[i] == old(self).journal@[i]);
                    assert(journal_cells_wf(old(self).journal@));
                }
            }
        }
    }

    /// Removes an address's account altogether; the full prior cell is
    /// journaled while a checkpoint is outstanding.
    pub fn destroy_account(&mut self, addr: Address)
        requires
            old(self).wf(),
        ensures
            final(self).wf(),
            final(self).model() == apply_write(old(self).model(), WriteOp::Destroy { addr }),
    {
        let ghost m0 = self.model();
        let ghost op = WriteOp::Destroy { addr };
        if self.store.contains(&addr) {
            let cell = self.store.take_cell(addr);
            if self.checkpoints.len() > 0 {
                self.journal.push(JournalEntry::Destroyed { addr, prior: cell });
            }
        } else {
            proof {
                assert(self.model().accounts =~= m0.accounts.remove(addr));
            }
        }
        proof {
            assert(self.model().journal =~= m0.journal + write_entries(m0, op));
            assert(self.model().accounts =~= write_accounts(m0.accounts, op));
            assert(self.model() =~= apply_write(m0, op));
            self.lemma_write_wf(m0, op);
            assert forall|i: int|
                0 <= i < self.journal@.len() implies (#[trigger] self.journal@[i] matches JournalEntry::Destroyed {
                prior,
                ..
            } ==> prior.wf()) by {
                if i < old(self).journal@.len() {
                    assert(self.journal@[i] == old(self).journal@[i]);
                    assert(journal_cells_wf(old(self).journal@));
                }
            }
        }
    }

    /// Appends one emitted log; journaled while a checkpoint is
    /// outstanding.
    pub fn append_log(&mut self, log: Log)
        requires
            old(self).wf(),
        ensures
            final(self).wf(),
            final(self).model() == append_log_step(old(self).model(), log@),
    {
        let ghost m0 = self.model();
        if self.checkpoints.len() > 0 {
            self.journal.push(JournalEntry::LogEmitted);
        }
        self.logs.push(log);
        proof {
            assert(self.model().logs =~= m0.logs.push(log@));
            assert(self.model().journal =~= append_log_step(m0, log@).journal);
            assert(self.model() =~= append_log_step(m0, log@));
            assert(model_wf(self.model()));
            assert forall|i: int|
                0 <= i < self.journal@.len() implies (#[trigger] self.journal@[i] matches JournalEntry::Destroyed {
                prior,
                ..
            } ==> prior.wf()) by {
                if i < old(self).journal@.len() {
                    assert(self.journal@[i] == old(self).journal@[i]);
                    assert(journal_cells_wf(old(self).journal@));
                }
            }
        }
    }

    /// Caches an account fetched from the remote source. A cache fill, not
    /// a state mutation: it is never journaled and never undone.
    pub fn install_account(&mut self, addr: Address, info: AccountInfo)
        requires
            old(self).wf(),
            !old(self).model().accounts.dom().contains(addr),
        ensures
            final(self).wf(),
            final(self).model() == (CtxModel {
                accounts: old(self).model().accounts.insert(
                    addr,
                    CellModel { info: info@, storage: Map::empty(), loaded: true },
                ),
                ..old(self).model()
            }),
    {
        let ghost m0 = self.model();
        self.store.ensure_entry(addr, info, true);
        proof {
            assert(self.model() =~= (CtxModel {
                accounts: m0.accounts.insert(
                    addr,
                    CellModel { info: info@, storage: Map::empty(), loaded: true },
                ),
                ..m0
            }));
            assert(model_wf(self.model()));
        }
    }

    /// Caches one storage slot fetched from the remote source; the
    /// account's entry must exist. A cache fill, never journaled.
    pub fn install_slot(&mut self, addr: Address, key: Uint256, value: Uint256)
        requires
            old(self).wf(),
            old(self).model().accounts.dom().contains(addr),
        ensures
            final(self).wf(),
            final(self).model() == (CtxModel {
                accounts: old(self).model().accounts.insert(
                    addr,
                    CellModel {
                        info: old(self).model().accounts[addr].info,
                        storage: old(self).model().accounts[addr].storage.insert(key, value),
                        loaded: old(self).model().accounts[addr].loaded,
                    },
                ),
                ..old(self).model()
            }),
    {
        let ghost m0 = self.model();
        self.store.set_slot_raw(addr, key, value);
        proof {
            assert(self.model() =~= (CtxModel {
                accounts: m0.accounts.insert(
                    addr,
                    CellModel {
                        info: m0.accounts[addr].info,
                        storage: m0.accounts[addr].storage.insert(key, value),
                        loaded: m0.accounts[addr].loaded,
                    },
                ),
                ..m0
            }));
            assert(model_wf(self.model()));
        }
    }
}

impl JournaledContext {
    /// The stored info of an address, or the zero-valued account when it
    /// has no entry. Never fails.
    pub fn get_info(&self, a: &Address) -> (r: AccountInfo)
        requires
            self.wf(),
        ensures
            r@ == crate::store::map_info_of(self.model().accounts, *a),
    {
        self.store.get_info(a)
    }

    /// The stored value of a slot, or zero. Never fails.
    pub fn get_slot(&self, a: &Address, k: &Uint256) -> (r: Uint256)
        requires
            self.wf(),
        ensures
            r == crate::store::map_slot_of(self.model().accounts, *a, *k),
    {
        self.store.get_slot(a, k)
    }

    pub fn contains_account(&self, a: &Address) -> (r: bool)
        requires
            self.wf(),
        ensures
            r == self.model().accounts.dom().contains(*a),
    {
        self.store.contains(a)
    }

    /// Whether the address's entry is locally authoritative.
    pub fn account_loaded(&self, a: &Address) -> (r: bool)
        requires
            self.wf(),
        ensures
            r == (self.model().accounts.dom().contains(*a) && self.model().accounts[*a].loaded),
    {
        self.store.is_loaded(a)
    }

    /// Whether this slot has a cached entry.
    pub fn slot_cached(&self, a: &Address, k: &Uint256) -> (r: bool)
        requires
            self.wf(),
        ensures
            r == (self.model().accounts.dom().contains(*a)
                && self.model().accounts[*a].storage.dom().contains(*k)),
    {
        self.store.slot_cached_raw(a, k)
    }

    /// Looks code up by its hash among the stored accounts.
    pub fn code_lookup(&self, h: &Hash256) -> (r: Option<Vec<u8>>)
        requires
            self.wf(),
        ensures
            match r {
                Some(c) => exists|a: Address|
                    #[trigger] self.model().accounts.dom().contains(a)
                        && self.model().accounts[a].info.code_hash == *h
                        && self.model().accounts[a].info.code == Some(c@),
                None => forall|a: Address|
                    #[trigger] self.model().accounts.dom().contains(a) ==> !(
                    self.model().accounts[a].info.code_hash == *h
                        && self.model().accounts[a].info.code is Some),
            },
    {
        let r = self.store.code_by_hash(h);
        proof {
            self.store.lemma_seq_view();
            let ghost rr = r;
            match rr {
                Some(c) => {
                    let i = choose|i: int|
                        0 <= i < self.store.seq_view().len()
                            && (#[trigger] self.store.seq_view()[i]).1.info.code_hash == *h
                            && self.store.seq_view()[i].1.info.code == Some(c@);
                    assert(self.model().accounts.dom().contains(self.store.seq_view()[i].0));
                },
                None => {
                    assert forall|a: Address|
                        #[trigger] self.model().accounts.dom().contains(a) implies !(
                    self.model().accounts[a].info.code_hash == *h
                        && self.model().accounts[a].info.code is Some) by {
                        let i = choose|i: int|
                            0 <= i < self.store.seq_view().len() && (#[trigger] self.store.seq_view()[i]).0
                                == a;
                        assert(self.store.seq_view()[i].1 == self.model().accounts[a]);
                    }
                },
            }
        }
        r
    }

    /// How many account entries the store holds.
    pub fn account_count(&self) -> (r: usize)
        ensures
            r == self.store_seq().len(),
    {
        self.store.count()
    }

    pub fn account_addr_at(&self, i: usize) -> (r: Address)
        requires
            i < self.store_seq().len(),
        ensures
            r == self.store_seq()[i as int].0,
    {
        self.store.addr_at(i)
    }

    pub fn account_info_at(&self, i: usize) -> (r: AccountInfo)
        requires
            i < self.store_seq().len(),
        ensures
            r@ == self.store_seq()[i as int].1.info,
    {
        self.store.info_at(i)
    }

    /// The slot pairs of the entry at position `i`.
    pub closed spec fn store_slots_at(&self, i: int) -> Seq<(Uint256, Uint256)> {
        self.store.slots_seq_at(i)
    }

    pub fn account_slots_len_at(&self, i: usize) -> (r: usize)
        requires
            i < self.store_seq().len(),
        ensures
            r == self.store_slots_at(i as int).len(),
    {
        self.store.slots_len_at(i)
    }

    pub fn account_slot_at(&self, i: usize, j: usize) -> (r: (Uint256, Uint256))
        requires
            self.wf(),
            i < self.store_seq().len(),
            j < self.store_slots_at(i as int).len(),
        ensures
            r == self.store_slots_at(i as int)[j as int],
            self.store_seq()[i as int].1.storage.dom().contains(r.0),
            self.store_seq()[i as int].1.storage[r.0] == r.1,
    {
        self.store.slot_at(i, j)
    }

    /// The slot pairs of entry `i` carry pairwise-distinct keys and are
    /// exactly the entry's storage map.
    pub proof fn lemma_slots_at(&self, i: int)
        requires
            self.wf(),
            0 <= i < self.store_seq().len(),
        ensures
            crate::store::slot_keys_unique(self.store_slots_at(i)),
            crate::store::slots_map(self.store_slots_at(i)) == self.store_seq()[i].1.storage,
    {
        self.store.lemma_slots_at(i);
    }

    /// Facts tying the walked entries to the account map.
    pub proof fn lemma_store_seq(&self)
        requires
            self.wf(),
        ensures
            forall|i: int, j: int|
                0 <= i < j < self.store_seq().len() ==> self.store_seq()[i].0
                    != self.store_seq()[j].0,
            forall|i: int|
                0 <= i < self.store_seq().len() ==> self.model().accounts.dom().contains(
                    (#[trigger] self.store_seq()[i]).0,
                ) && self.model().accounts[self.store_seq()[i].0] == self.store_seq()[i].1,
            forall|a: Address|
                self.model().accounts.dom().contains(a) ==> exists|i: int|
                    0 <= i < self.store_seq().len() && (#[trigger] self.store_seq()[i]).0 == a,
    {
        self.store.lemma_seq_view();
        assert forall|i: int, j: int|
            0 <= i < j < self.store_seq().len() implies self.store_seq()[i].0
            != self.store_seq()[j].0 by {
            assert(self.store.seq_view()[i] == self.store_seq()[i]);
            assert(self.store.seq_view()[j] == self.store_seq()[j]);
        }
        assert forall|i: int|
            0 <= i < self.store_seq().len() implies self.model().accounts.dom().contains(
            (#[trigger] self.store_seq()[i]).0,
        ) && self.model().accounts[self.store_seq()[i].0] == self.store_seq()[i].1 by {
            assert(self.store.view_map().dom().contains(self.store.seq_view()[i].0));
            assert(self.store.view_map()[self.store.seq_view()[i].0]
                == self.store.seq_view()[i].1);
        }
        assert forall|a: Address|
            self.model().accounts.dom().contains(a) implies exists|i: int|
            0 <= i < self.store_seq().len() && (#[trigger] self.store_seq()[i]).0 == a by {
            assert(self.store.view_map().dom().contains(a));
            let i = choose|i: int|
                0 <= i < self.store.seq_view().len() && (#[trigger] self.store.seq_view()[i]).0
                    == a;
            assert(0 <= i < self.store_seq().len() && self.store_seq()[i].0 == a);
        }
    }
}

/// Undoes one journal entry against the store, restoring the recorded
/// prior value.
fn undo_apply(store: &mut AccountStore, e: JournalEntry)
    requires
        old(store).wf(),
        e matches JournalEntry::Destroyed { prior, .. } ==> prior.wf(),
    ensures
        final(store).wf(),
        final(store).view_map() == undo_entry(old(store).view_map(), e@),
{
    match e {
        JournalEntry::Created { addr } => {
            if store.contains(&addr) {
                store.remove_entry(addr);
            } else {
                proof {
                    assert(store.view_map() =~= old(store).view_map().remove(addr));
                }
            }
        },
        JournalEntry::Balance { addr, prior } => {
            if store.contains(&addr) {
                store.set_balance_raw(addr, prior);
            }
        },
        JournalEntry::Info { addr, prior, prior_loaded } => {
            if store.contains(&addr) {
                store.set_info_raw(addr, prior, prior_loaded);
            }
        },
        JournalEntry::Slot { addr, key, prior } => {
            if store.contains(&addr) {
                match prior {
                    Some(v) => store.set_slot_raw(addr, key, v),
                    None => store.remove_slot_raw(addr, key),
                }
            }
        },
        JournalEntry::Destroyed { addr, prior } => {
            if store.contains(&addr) {
                store.remove_entry(addr);
            }
            store.insert_cell(addr, prior);
            proof {
                assert(store.view_map() =~= old(store).view_map().insert(
                    addr,
                    e@->Destroyed_prior,
                ));
            }
        },
        JournalEntry::LogEmitted => {
        },
    }
}

} // verus!
