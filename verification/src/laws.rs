//! The laws of the checkpoint/revert protocol, stated over the
//! mathematical state and proved once and for all: default reads,
//! write/read round trips, revert identity, nested revert, and commit
//! finality.
use vstd::prelude::*;

use crate::account::InfoModel;
use crate::journal::{
    append_log_step, apply_write, apply_writes, commit_step, cp_first_index, lemma_cp_first_index,
    lemma_rewind_push, model_wf, revert_step, rewind, snapshot_step, undo_entry, write_entries,
    CtxModel, EntryModel, LogModel, WriteOp,
};
use crate::store::{map_info_of, map_slot_of};
use crate::values::{Address, Uint256};

verus! {

/// While a checkpoint is outstanding, one write appends exactly the record
/// that undoes it: rewinding the journal back to any earlier point yields
/// the same account map as before the write.
pub proof fn lemma_write_preserves_rewind(s: CtxModel, op: WriteOp, k: int)
    requires
        s.checkpoints.len() > 0,
        0 <= k <= s.journal.len(),
    ensures
        rewind(apply_write(s, op).accounts, apply_write(s, op).journal, k) == rewind(
            s.accounts,
            s.journal,
            k,
        ),
{
    let s2 = apply_write(s, op);
    let entries = write_entries(s, op);
    if entries.len() == 0 {
        assert(s2.journal =~= s.journal);
        assert(s2.accounts =~= s.accounts);
    } else {
        let e = entries[0];
        assert(s2.journal =~= s.journal.push(e));
        let m = s.accounts;
        assert(undo_entry(s2.accounts, e) =~= s.accounts) by {
            match op {
                WriteOp::SetBalance { addr, value } => {
                    if m.dom().contains(addr) {
                        assert((InfoModel {
                            balance: m[addr].info.balance,
                            ..s2.accounts[addr].info
                        }) =~= m[addr].info);
                        assert(undo_entry(s2.accounts, e)[addr] =~= m[addr]);
                    }
                },
                WriteOp::SetStorage { addr, key, value } => {
                    if m.dom().contains(addr) {
                        if m[addr].storage.dom().contains(key) {
                            assert(s2.accounts[addr].storage.insert(key, m[addr].storage[key])
                                =~= m[addr].storage);
                        } else {
                            assert(s2.accounts[addr].storage.remove(key) =~= m[addr].storage);
                        }
                        assert(undo_entry(s2.accounts, e)[addr] =~= m[addr]);
                    }
                },
                WriteOp::InsertInfo { addr, info } => {
                    if m.dom().contains(addr) {
                        assert(undo_entry(s2.accounts, e)[addr] =~= m[addr]);
                    }
                },
                WriteOp::Destroy { addr } => {
                    assert(m.dom().contains(addr));
                    assert(undo_entry(s2.accounts, e) =~= m.remove(addr).insert(addr, m[addr]));
                },
            }
        }
        lemma_rewind_push(s2.accounts, undo_entry(s2.accounts, e), s.journal, e, k);
        assert(rewind(s2.accounts, s.journal.push(e), k) == rewind(s.accounts, s.journal, k));
    }
}

/// Appending a log also preserves every rewind point: its pacing record
/// undoes to nothing, so a later revert still restores the account map,
/// while the log itself is discarded by the revert's log truncation.
pub proof fn lemma_append_log_preserves_rewind(s: CtxModel, l: LogModel, k: int)
    requires
        0 <= k <= s.journal.len(),
    ensures
        rewind(append_log_step(s, l).accounts, append_log_step(s, l).journal, k) == rewind(
            s.accounts,
            s.journal,
            k,
        ),
{
    if s.checkpoints.len() > 0 {
        assert(undo_entry(s.accounts, EntryModel::LogEmitted) == s.accounts);
        lemma_rewind_push(s.accounts, s.accounts, s.journal, EntryModel::LogEmitted, k);
    }
}

/// Facts about a whole sequence of writes: checkpoints and logs are
/// untouched, the journal only grows, and rewinding to any point at or
/// before the starting journal length yields the starting account map.
pub proof fn lemma_apply_writes_facts(s: CtxModel, ops: Seq<WriteOp>)
    requires
        s.checkpoints.len() > 0,
    ensures
        apply_writes(s, ops).checkpoints == s.checkpoints,
        apply_writes(s, ops).logs == s.logs,
        apply_writes(s, ops).journal.len() >= s.journal.len(),
        apply_writes(s, ops).journal.take(s.journal.len() as int) == s.journal,
        forall|k: int|
            0 <= k <= s.journal.len() ==> rewind(
                apply_writes(s, ops).accounts,
                apply_writes(s, ops).journal,
                k,
            ) == rewind(s.accounts, s.journal, k),
    decreases ops.len(),
{
    if ops.len() == 0 {
        assert(s.journal.take(s.journal.len() as int) =~= s.journal);
    } else {
        let sm = apply_writes(s, ops.drop_last());
        lemma_apply_writes_facts(s, ops.drop_last());
        let s2 = apply_write(sm, ops.last());
        assert(s2 == apply_writes(s, ops));
        assert(s2.journal.take(s.journal.len() as int) =~= s.journal) by {
            assert(sm.journal.take(s.journal.len() as int) == s.journal);
        }
        assert forall|k: int|
            0 <= k <= s.journal.len() implies rewind(s2.accounts, s2.journal, k) == rewind(
            s.accounts,
            s.journal,
            k,
        ) by {
            lemma_write_preserves_rewind(sm, ops.last(), k);
        }
    }
}

/// Rewinding a journal already at the target point changes nothing.
pub proof fn lemma_rewind_at_base(m: Map<Address, crate::store::CellModel>, j: Seq<
    crate::journal::EntryModel,
>)
    ensures
        rewind(m, j, j.len() as int) == m,
{
}

/// Default-read law: an address that was never written reads as the
/// zero-valued account, and every one of its slots reads as zero.
pub proof fn lemma_default_read(s: CtxModel, a: Address)
    requires
        !s.accounts.dom().contains(a),
    ensures
        map_info_of(s.accounts, a) == InfoModel::zero(),
        forall|k: Uint256| map_slot_of(s.accounts, a, k) == (Uint256 { l0: 0, l1: 0, l2: 0, l3: 0 }),
{
}

/// Write/read round trip: after setting the balance of any address to any
/// value, reading it back yields that value.
pub proof fn lemma_write_read_roundtrip(s: CtxModel, a: Address, v: Uint256)
    ensures
        map_info_of(apply_write(s, WriteOp::SetBalance { addr: a, value: v }).accounts, a).balance
            == v,
{
}

/// Storage write/read round trip: after writing any slot of any address,
/// reading that slot back yields the written value.
pub proof fn lemma_storage_roundtrip(s: CtxModel, a: Address, k: Uint256, v: Uint256)
    ensures
        map_slot_of(apply_write(s, WriteOp::SetStorage { addr: a, key: k, value: v }).accounts, a, k)
            == v,
{
}

/// Checkpoint/revert identity: for any sequence of writes between a
/// snapshot returning token `t` and a revert to `t`, the revert succeeds
/// and restores the account map and the logs exactly as they stood when
/// the snapshot was taken.
pub proof fn lemma_checkpoint_revert_identity(s0: CtxModel, ops: Seq<WriteOp>)
    requires
        model_wf(s0),
    ensures
        ({
            let (s1, t) = snapshot_step(s0);
            let s2 = apply_writes(s1, ops);
            &&& revert_step(s2, t) is Ok
            &&& revert_step(s2, t)->Ok_0.accounts == s0.accounts
            &&& revert_step(s2, t)->Ok_0.logs == s0.logs
        }),
{
    let (s1, t) = snapshot_step(s0);
    let s2 = apply_writes(s1, ops);
    lemma_apply_writes_facts(s1, ops);
    assert(s2.checkpoints[s0.checkpoints.len() as int] == t);
    assert(s2.checkpoints.contains(t));
    let r = revert_step(s2, t);
    assert(r is Ok);
    assert(rewind(s2.accounts, s2.journal, t.0 as int) == rewind(
        s1.accounts,
        s1.journal,
        s1.journal.len() as int,
    ));
    lemma_rewind_at_base(s1.accounts, s1.journal);
    assert(r->Ok_0.accounts == s0.accounts);
    assert(s2.logs.take(t.1 as int) =~= s0.logs);
}

/// Nested checkpoint LIFO: with token `t1` taken first, at least one
/// journaled write, then token `t2`, reverting `t2` restores the state at
/// `t2`, and reverting `t1` afterwards restores the state at `t1`.
pub proof fn lemma_nested_revert_lifo(s0: CtxModel, ops1: Seq<WriteOp>, ops2: Seq<WriteOp>)
    requires
        model_wf(s0),
        apply_writes(snapshot_step(s0).0, ops1).journal.len() > s0.journal.len(),
    ensures
        ({
            let (s1, t1) = snapshot_step(s0);
            let s2 = apply_writes(s1, ops1);
            let (s3, t2) = snapshot_step(s2);
            let s4 = apply_writes(s3, ops2);
            &&& revert_step(s4, t2) is Ok
            &&& revert_step(s4, t2)->Ok_0.accounts == s2.accounts
            &&& revert_step(revert_step(s4, t2)->Ok_0, t1) is Ok
            &&& revert_step(revert_step(s4, t2)->Ok_0, t1)->Ok_0.accounts == s0.accounts
            &&& revert_step(revert_step(s4, t2)->Ok_0, t1)->Ok_0.logs == s0.logs
        }),
{
    let (s1, t1) = snapshot_step(s0);
    let s2 = apply_writes(s1, ops1);
    let (s3, t2) = snapshot_step(s2);
    let s4 = apply_writes(s3, ops2);
    lemma_apply_writes_facts(s1, ops1);
    lemma_apply_writes_facts(s3, ops2);

    // Revert to t2 restores the state at the second snapshot.
    assert(s4.checkpoints[s3.checkpoints.len() - 1] == t2);
    assert(s4.checkpoints.contains(t2));
    let s5 = revert_step(s4, t2)->Ok_0;
    lemma_rewind_at_base(s3.accounts, s3.journal);
    assert(s5.accounts == s2.accounts);
    assert(s5.journal =~= s2.journal) by {
        assert(s4.journal.take(s3.journal.len() as int) == s3.journal);
    }
    assert(s5.logs =~= s2.logs) by {
        assert(s4.logs == s2.logs);
    }

    // t2 sits above every earlier checkpoint, so removing it keeps t1.
    assert(t2.0 == s2.journal.len() && t2.0 > s0.journal.len());
    assert(t1.0 == s0.journal.len());
    let fi2 = cp_first_index(s4.checkpoints, t2);
    lemma_cp_first_index(s4.checkpoints, t2);
    assert forall|j: int| 0 <= j < s1.checkpoints.len() implies s4.checkpoints[j] != t2 by {
        if j < s0.checkpoints.len() {
            assert(s0.checkpoints[j].0 <= s0.journal.len());
        } else {
            assert(s4.checkpoints[j] == t1);
        }
    }
    assert(fi2 == s1.checkpoints.len()) by {
        assert(s4.checkpoints[s1.checkpoints.len() as int] == t2);
        if fi2 < s1.checkpoints.len() {
            assert(false);
        }
    }
    assert(s5.checkpoints =~= s1.checkpoints);
    assert(s5.checkpoints[s0.checkpoints.len() as int] == t1);
    assert(s5.checkpoints.contains(t1));

    // Revert to t1 from there restores the state at the first snapshot.
    let s6 = revert_step(s5, t1)->Ok_0;
    assert forall|k: int|
        0 <= k <= s1.journal.len() implies rewind(s5.accounts, s5.journal, k) == rewind(
        s1.accounts,
        s1.journal,
        k,
    ) by {
        assert(rewind(s2.accounts, s2.journal, k) == rewind(s1.accounts, s1.journal, k));
    }
    lemma_rewind_at_base(s1.accounts, s1.journal);
    assert(s6.accounts == s0.accounts);
    assert(s6.logs =~= s0.logs) by {
        assert(s5.logs.take(t1.1 as int) =~= s0.logs);
    }
}

/// Out-of-order revert: reverting the outer token `t1` directly discards
/// the writes of both spans, removes `t2` from the held checkpoints, and a
/// later attempt to revert `t2` fails.
pub proof fn lemma_out_of_order_revert(s0: CtxModel, ops1: Seq<WriteOp>, ops2: Seq<WriteOp>)
    requires
        model_wf(s0),
        apply_writes(snapshot_step(s0).0, ops1).journal.len() > s0.journal.len(),
    ensures
        ({
            let (s1, t1) = snapshot_step(s0);
            let s2 = apply_writes(s1, ops1);
            let (s3, t2) = snapshot_step(s2);
            let s4 = apply_writes(s3, ops2);
            &&& revert_step(s4, t1) is Ok
            &&& revert_step(s4, t1)->Ok_0.accounts == s0.accounts
            &&& revert_step(s4, t1)->Ok_0.logs == s0.logs
            &&& !revert_step(s4, t1)->Ok_0.checkpoints.contains(t2)
            &&& revert_step(revert_step(s4, t1)->Ok_0, t2) is Err
        }),
{
    let (s1, t1) = snapshot_step(s0);
    let s2 = apply_writes(s1, ops1);
    let (s3, t2) = snapshot_step(s2);
    let s4 = apply_writes(s3, ops2);
    lemma_apply_writes_facts(s1, ops1);
    lemma_apply_writes_facts(s3, ops2);

    assert(s4.checkpoints[s0.checkpoints.len() as int] == t1);
    assert(s4.checkpoints.contains(t1));
    let s6 = revert_step(s4, t1)->Ok_0;

    // Accounts and logs rewind through both spans of writes.
    assert forall|k: int|
        0 <= k <= s1.journal.len() implies rewind(s4.accounts, s4.journal, k) == rewind(
        s1.accounts,
        s1.journal,
        k,
    ) by {
        assert(rewind(s3.accounts, s3.journal, k) == rewind(s2.accounts, s2.journal, k));
        assert(rewind(s2.accounts, s2.journal, k) == rewind(s1.accounts, s1.journal, k));
    }
    lemma_rewind_at_base(s1.accounts, s1.journal);
    assert(s6.accounts == s0.accounts);
    assert(s6.logs =~= s0.logs) by {
        assert(s4.logs == s0.logs);
        assert(s4.logs.take(t1.1 as int) =~= s0.logs);
    }

    // Every checkpoint kept by the revert was taken before t1, and t2 was
    // taken after it, so t2 is gone and a second revert fails.
    let fi1 = cp_first_index(s4.checkpoints, t1);
    lemma_cp_first_index(s4.checkpoints, t1);
    assert(fi1 <= s0.checkpoints.len());
    assert(t2.0 > t1.0);
    assert(!s6.checkpoints.contains(t2)) by {
        if s6.checkpoints.contains(t2) {
            let j = choose|j: int| 0 <= j < s6.checkpoints.len() && s6.checkpoints[j] == t2;
            assert(s6.checkpoints[j] == s4.checkpoints[j]);
            assert(j < fi1 <= s0.checkpoints.len());
            assert(s0.checkpoints[j].0 <= s0.journal.len());
            assert(false);
        }
    }
    assert(revert_step(s6, t2) is Err);
}

/// Commit finality, first half: a commit discards every outstanding
/// checkpoint, and reverting any token right after it fails for want of an
/// outstanding checkpoint.
pub proof fn lemma_commit_finality(s: CtxModel, t: (nat, nat))
    ensures
        commit_step(s).checkpoints.len() == 0,
        revert_step(commit_step(s), t) == Err::<CtxModel, crate::errors::EvmError>(
            crate::errors::EvmError::NoCheckpointToRevert,
        ),
{
}

/// Commit finality, second half: once new snapshots are taken after the
/// commit, a token issued before it — distinct from every token issued
/// since — fails with `InvalidCheckpoint`.
pub proof fn lemma_commit_invalidates(s: CtxModel, t: (nat, nat))
    requires
        t != snapshot_step(commit_step(s)).1,
    ensures
        revert_step(snapshot_step(commit_step(s)).0, t) == Err::<CtxModel, crate::errors::EvmError>(
            crate::errors::EvmError::InvalidCheckpoint,
        ),
{
    let s2 = snapshot_step(commit_step(s)).0;
    assert(s2.checkpoints.len() == 1);
    if s2.checkpoints.contains(t) {
        let j = choose|j: int| 0 <= j < s2.checkpoints.len() && s2.checkpoints[j] == t;
        assert(j == 0);
        assert(false);
    }
}

/// Remote cache determinism: once a fetched account is cached, the entry
/// is locally authoritative and reads as exactly the cached info, so a
/// remote-backed store answers later reads of that address from the cache
/// and never consults the remote source for it again; and two reads of the
/// same cached address return the same info.
pub proof fn lemma_remote_cache_determinism(
    m: Map<Address, crate::store::CellModel>,
    a: Address,
    info: InfoModel,
)
    ensures
        ({
            let m2 = m.insert(
                a,
                crate::store::CellModel { info, storage: Map::empty(), loaded: true },
            );
            m2.dom().contains(a) && m2[a].loaded && map_info_of(m2, a) == info
        }),
{
}

} // verus!
