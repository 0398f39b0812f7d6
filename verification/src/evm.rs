//! The EVM instance: a journaled, checkpointable ledger, optionally backed
//! by a remote data source, and a transaction runner that hands one-shot
//! environments to the engine and reconciles the returned diff.
use vstd::prelude::*;

use crate::account::{AccountInfo, InfoModel};
use crate::checkpoint::JournalCheckpoint;
use crate::engine::{
    acct_info, acct_model, acct_selfdestructed, acct_storage, acct_touched, engine_block,
    engine_output_of, engine_run, engine_tx, keccak_bytes, keccak_of, outcome_created,
    outcome_gas_refunded, outcome_gas_used, outcome_log, outcome_log_count, outcome_output,
    outcome_reason, output_diff, run_of, scratch_accounts, scratch_info_norm, scratch_insert_info,
    scratch_insert_slot, scratch_new, BlockParams, DiffCell, ReasonKind, RunModel, ScratchCell,
    TxParams,
};
use crate::env::Env;
use crate::errors::{EvmError, RemoteKey};
use crate::hex::{
    dec_bytes, format_address, parse_address, parse_block_pin, parse_hash, spec_address_of,
    spec_hash_of, u64_decimal_bytes, valid_address_str, valid_hash_str, address_hex,
};
use crate::journal::{
    apply_write, apply_writes, commit_step, revert_step, snapshot_step, CtxModel,
    JournaledContext, Log, WriteOp,
};
use crate::journal::{lemma_apply_writes_concat, lemma_apply_writes_push};
use crate::result::{project_outcome, ExecutionResult};
use crate::store::{map_info_of, map_slot_of, CellModel};
use crate::values::{Address, BlockPin, Hash256, Uint256};

verus! {

/// Where a remote-backed instance reads missing data from: a source
/// locator and the historical point it is pinned to.
#[derive(Debug)]
pub struct RemoteConfig {
    pub url: String,
    pub pin: BlockPin,
}

/// One account of a state diff returned by the engine.
#[derive(Debug)]
pub struct DiffEntry {
    pub addr: Address,
    pub touched: bool,
    pub selfdestructed: bool,
    pub info: AccountInfo,
    pub storage: Vec<(Uint256, Uint256)>,
}

/// The mathematical shape of a diff entry.
pub struct DiffModel {
    pub addr: Address,
    pub touched: bool,
    pub selfdestructed: bool,
    pub info: InfoModel,
    pub storage: Seq<(Uint256, Uint256)>,
}

impl View for DiffEntry {
    type V = DiffModel;

    open spec fn view(&self) -> DiffModel {
        DiffModel {
            addr: self.addr,
            touched: self.touched,
            selfdestructed: self.selfdestructed,
            info: self.info@,
            storage: self.storage@,
        }
    }
}

/// The ledger writes that committing one diff entry performs: nothing for
/// an untouched account, removal for a destroyed one, else the new info
/// followed by its written slots.
pub open spec fn entry_ops(e: DiffModel) -> Seq<WriteOp> {
    if !e.touched {
        Seq::empty()
    } else if e.selfdestructed {
        seq![WriteOp::Destroy { addr: e.addr }]
    } else {
        seq![WriteOp::InsertInfo { addr: e.addr, info: e.info }] + e.storage.map_values(
            |p: (Uint256, Uint256)| WriteOp::SetStorage { addr: e.addr, key: p.0, value: p.1 },
        )
    }
}

/// The ledger writes that committing a whole diff performs, entry by
/// entry.
pub open spec fn diff_ops(s: Seq<DiffModel>) -> Seq<WriteOp>
    decreases s.len(),
{
    if s.len() == 0 {
        Seq::empty()
    } else {
        diff_ops(s.drop_last()) + entry_ops(s.last())
    }
}

/// Whether one converted diff entry carries the same content as a cell
/// of a run's diff map.
pub open spec fn entry_matches(e: DiffModel, c: DiffCell) -> bool {
    &&& e.touched == c.touched
    &&& e.selfdestructed == c.selfdestructed
    &&& e.info == c.info
    &&& crate::store::slot_keys_unique(e.storage)
    &&& crate::store::slots_map(e.storage) == c.storage
}

/// Whether a sequence of entries enumerates a diff map: pairwise-distinct
/// addresses, every entry a cell of the map, every address of the map
/// among the entries.
pub open spec fn enumerates(entries: Seq<DiffModel>, d: Map<Address, DiffCell>) -> bool {
    &&& forall|i: int, j: int|
        0 <= i < j < entries.len() ==> (#[trigger] entries[i]).addr != (#[trigger] entries[j]).addr
    &&& forall|i: int|
        0 <= i < entries.len() ==> d.dom().contains((#[trigger] entries[i]).addr)
            && entry_matches(entries[i], d[entries[i].addr])
    &&& forall|a: Address|
        #[trigger] d.dom().contains(a) ==> exists|i: int|
            0 <= i < entries.len() && (#[trigger] entries[i]).addr == a
}

/// Whether `post` is `pre` with a run committed: some enumeration of the
/// run's diff map applied as journaled writes, then the run's logs
/// appended in emission order.
pub open spec fn commits_run(pre: CtxModel, post: CtxModel, run: RunModel) -> bool {
    exists|entries: Seq<DiffModel>|
        #[trigger] enumerates(entries, run.diff) && post == crate::journal::append_logs_step(
            apply_writes(pre, diff_ops(entries)),
            run.logs,
        )
}

/// Whether one cell of a run's diff map is free of state mutation under
/// the static policy: a touched account keeps its balance, code and code
/// hash (the caller may bump its nonce), writes no slot, and destroys
/// nothing.
pub open spec fn cell_static_ok(
    m: Map<Address, CellModel>,
    a: Address,
    c: DiffCell,
    caller: Address,
) -> bool {
    c.touched ==> !c.selfdestructed && (forall|k: Uint256|
        !(#[trigger] c.storage.dom().contains(k))) && c.info.balance == map_info_of(m, a).balance
        && crate::account::norm_code(c.info.code) == crate::account::norm_code(
        map_info_of(m, a).code,
    ) && c.info.code_hash == map_info_of(m, a).code_hash && (a == caller || c.info.nonce
        == map_info_of(m, a).nonce)
}

/// The static policy over a whole diff map.
pub open spec fn diff_static_ok_map(
    m: Map<Address, CellModel>,
    d: Map<Address, DiffCell>,
    caller: Address,
) -> bool {
    forall|a: Address| #[trigger] d.dom().contains(a) ==> cell_static_ok(m, a, d[a], caller)
}

/// The outcome reason after the static policy: a static call whose diff
/// held a state change is projected to a static-violation halt.
pub open spec fn effective_reason(
    m: Map<Address, CellModel>,
    run: RunModel,
    caller: Address,
    is_static: bool,
) -> ReasonKind {
    if is_static && !diff_static_ok_map(m, run.diff, caller) {
        ReasonKind::StaticViolation
    } else {
        run.reason
    }
}

/// An info with its code made inline: absent code becomes the empty byte
/// sequence, which the engine executes identically. Inline code keeps the
/// engine away from the cache's hash-keyed code table, so a run is a
/// function of the image map alone.
pub open spec fn inline_code(i: InfoModel) -> InfoModel {
    match i.code {
        Some(c) => i,
        None => InfoModel { code: Some(Seq::<u8>::empty()), ..i },
    }
}

/// The scratch image of an account map: the same accounts and storage,
/// without the cache flags, each info with its code inline and carrying
/// the cache's code-hash normalization.
pub open spec fn scratch_of(m: Map<Address, CellModel>) -> Map<Address, ScratchCell> {
    Map::new(
        |a: Address| m.dom().contains(a),
        |a: Address| ScratchCell {
            info: scratch_info_norm(inline_code(m[a].info)),
            storage: m[a].storage,
        },
    )
}

/// The first cached hash for a block number, if any: the one every read
/// of that number returns.
pub open spec fn bh_first(s: Seq<(u64, Hash256)>, n: u64) -> Option<Hash256>
    decreases s.len(),
{
    if s.len() == 0 {
        None
    } else if s.first().0 == n {
        Some(s.first().1)
    } else {
        bh_first(s.drop_first(), n)
    }
}

/// Appending a pair does not disturb the first entry of any number that
/// already has one, and seeds it for a number that has none.
pub proof fn lemma_bh_first_push(s: Seq<(u64, Hash256)>, p: (u64, Hash256), n: u64)
    ensures
        bh_first(s.push(p), n) == (match bh_first(s, n) {
            Some(h) => Some(h),
            None => if p.0 == n {
                Some(p.1)
            } else {
                None
            },
        }),
    decreases s.len(),
{
    assert(s.push(p).len() == s.len() + 1);
    assert(bh_first(Seq::<(u64, Hash256)>::empty(), n) is None);
    if s.len() == 0 {
        assert(s.push(p).first() == p);
        if p.0 != n {
            assert(s.push(p).drop_first() =~= Seq::<(u64, Hash256)>::empty());
            assert(bh_first(s.push(p), n) is None);
        } else {
            assert(bh_first(s.push(p), n) == Some(p.1));
        }
    } else {
        assert(s.push(p).first() == s.first());
        if s.first().0 != n {
            assert(s.push(p).drop_first() =~= s.drop_first().push(p));
            lemma_bh_first_push(s.drop_first(), p, n);
            assert(bh_first(s.push(p), n) == bh_first(s.drop_first().push(p), n));
        } else {
            assert(bh_first(s.push(p), n) == Some(s.first().1));
            assert(bh_first(s, n) == Some(s.first().1));
        }
    }
}

/// The first cached hash is the one a forward scan finds.
proof fn lemma_bh_first_at(s: Seq<(u64, Hash256)>, n: u64, i: int)
    requires
        0 <= i < s.len(),
        forall|j: int| 0 <= j < i ==> (#[trigger] s[j]).0 != n,
        s[i].0 == n,
    ensures
        bh_first(s, n) == Some(s[i].1),
    decreases i,
{
    if i == 0 {
    } else {
        assert(s.first().0 != n);
        assert forall|j: int| 0 <= j < i - 1 implies (#[trigger] s.drop_first()[j]).0 != n by {
            assert(s.drop_first()[j] == s[j + 1]);
        }
        assert(s.drop_first()[i - 1] == s[i]);
        lemma_bh_first_at(s.drop_first(), n, i - 1);
    }
}

/// A number no cached pair carries has no first entry.
proof fn lemma_bh_first_none(s: Seq<(u64, Hash256)>, n: u64)
    requires
        forall|j: int| 0 <= j < s.len() ==> (#[trigger] s[j]).0 != n,
    ensures
        bh_first(s, n) is None,
    decreases s.len(),
{
    if s.len() > 0 {
        assert forall|j: int| 0 <= j < s.len() - 1 implies (#[trigger] s.drop_first()[j]).0 != n
        by {
            assert(s.drop_first()[j] == s[j + 1]);
        }
        lemma_bh_first_none(s.drop_first(), n);
    }
}

/// What one call or deployment produced, before projection.
pub struct RunOutput {
    pub success: bool,
    pub output: Option<Vec<u8>>,
    pub created: Option<Address>,
    pub diff: Vec<DiffEntry>,
    pub logs: Vec<Log>,
}

/// An embedded EVM instance.
#[derive(Debug)]
pub struct EVM {
    ctx: JournaledContext,
    env: Env,
    gas_limit: u64,
    spec_id: String,
    /// Whether instruction tracing is requested; the streaming itself is
    /// engine-defined and driven outside this library.
    pub tracing: bool,
    remote: Option<RemoteConfig>,
    result: Option<ExecutionResult>,
    block_hashes: Vec<(u64, Hash256)>,
}

impl EVM {
    /// The ledger state of this instance.
    pub closed spec fn model(&self) -> CtxModel {
        self.ctx.model()
    }

    pub closed spec fn wf(&self) -> bool {
        self.ctx.wf()
    }

    /// Whether reads fall back to a remote source on a miss.
    pub closed spec fn is_remote(&self) -> bool {
        self.remote is Some
    }

    pub closed spec fn gas_limit_spec(&self) -> u64 {
        self.gas_limit
    }

    /// The cached block hashes.
    pub closed spec fn block_hashes_spec(&self) -> Seq<(u64, Hash256)> {
        self.block_hashes@
    }

    /// The historical point a remote-backed instance is pinned at;
    /// `None` for a pure in-memory instance.
    pub closed spec fn pin_spec(&self) -> Option<BlockPin> {
        match self.remote {
            Some(ref rc) => Some(rc.pin),
            None => None,
        }
    }

    /// The remote source locator; `None` for a pure in-memory instance.
    pub closed spec fn remote_url_spec(&self) -> Option<Seq<char>> {
        match self.remote {
            Some(ref rc) => Some(rc.url@),
            None => None,
        }
    }

    /// The stored accounts in insertion order.
    pub closed spec fn store_seq(&self) -> Seq<(Address, CellModel)> {
        self.ctx.store_seq()
    }

    /// The configured chain id.
    pub closed spec fn chain_id_spec(&self) -> u64 {
        self.env.cfg.chain_id
    }

    /// The ambient block parameters.
    pub closed spec fn block_env_spec(&self) -> crate::env::BlockEnv {
        self.env.block
    }

    /// The ambient transaction defaults.
    pub closed spec fn tx_env_spec(&self) -> crate::env::TxModel {
        self.env.tx@
    }

    /// The configured hardfork name, passed through to the engine.
    pub closed spec fn spec_name_spec(&self) -> Seq<char> {
        self.spec_id@
    }

    /// The outcome kept from the last run, if there was one.
    pub closed spec fn last_result(&self) -> Option<crate::result::ResultModel> {
        match self.result {
            Some(r) => Some(r@),
            None => None,
        }
    }

    /// Whether the last run produced an outcome, and whether it was a
    /// success.
    pub open spec fn last_result_success(&self) -> Option<bool> {
        match self.last_result() {
            Some(m) => Some(m.is_success),
            None => None,
        }
    }

    /// The run that a call with these parameters performs: a function of
    /// the current ledger and environment alone. The block the engine
    /// sees carries a zero base fee and the configured per-call gas
    /// limit, and a missing gas price is zero, so that fee checks and
    /// ambient gas policy never block a simulated call. The ambient
    /// transaction defaults are kept for introspection only: each
    /// one-shot environment is built from these arguments, with the
    /// nonce check disabled.
    pub open spec fn run_spec(
        &self,
        caller: Address,
        target: Option<Address>,
        value: Uint256,
        data: Seq<u8>,
        gas: Option<u64>,
        gas_price: Option<u128>,
    ) -> RunModel {
        run_of(
            scratch_of(self.model().accounts),
            TxParams {
                caller,
                target,
                value,
                data,
                gas_limit: match gas {
                    Some(g) => g,
                    None => self.gas_limit_spec(),
                },
                gas_price: match gas_price {
                    Some(p) => p,
                    None => 0u128,
                },
            },
            BlockParams {
                number: self.block_env_spec().number,
                beneficiary: self.block_env_spec().coinbase,
                timestamp: self.block_env_spec().timestamp,
                gas_limit: self.gas_limit_spec(),
                basefee: 0,
                difficulty: self.block_env_spec().difficulty,
                prevrandao: self.block_env_spec().prevrandao,
            },
            self.spec_name_spec(),
            self.chain_id_spec(),
        )
    }

    /// The run a message call with these arguments performs.
    pub open spec fn message_run(
        &self,
        caller: Seq<char>,
        to: Seq<char>,
        calldata: Option<Vec<u8>>,
        value: Option<Uint256>,
        gas: Option<u64>,
        gas_price: Option<u128>,
    ) -> RunModel {
        self.run_spec(
            spec_address_of(caller),
            Some(spec_address_of(to)),
            match value {
                Some(v) => v,
                None => Uint256 { l0: 0, l1: 0, l2: 0, l3: 0 },
            },
            match calldata {
                Some(d) => d@,
                None => Seq::<u8>::empty(),
            },
            gas,
            gas_price,
        )
    }

    /// The run a deployment with these arguments performs.
    pub open spec fn create_run(
        &self,
        deployer: Seq<char>,
        code: Seq<u8>,
        value: Option<Uint256>,
        gas: Option<u64>,
        gas_price: Option<u128>,
    ) -> RunModel {
        self.run_spec(
            spec_address_of(deployer),
            None,
            match value {
                Some(v) => v,
                None => Uint256 { l0: 0, l1: 0, l2: 0, l3: 0 },
            },
            code,
            gas,
            gas_price,
        )
    }

    /// Whether an address can be served locally: in a pure in-memory
    /// instance always, in a remote-backed one only once its entry is
    /// locally authoritative.
    pub open spec fn account_ready(&self, a: Address) -> bool {
        !self.is_remote() || (self.model().accounts.dom().contains(a)
            && self.model().accounts[a].loaded)
    }

    /// Whether a slot can be served locally.
    pub open spec fn slot_ready(&self, a: Address, k: Uint256) -> bool {
        !self.is_remote() || (self.model().accounts.dom().contains(a)
            && self.model().accounts[a].storage.dom().contains(k))
    }

    /// Creates an instance: a zero-valued environment unless one is given,
    /// a pure in-memory store unless a remote locator is given, and the
    /// given per-call gas limit.
    pub fn new(
        env: Option<Env>,
        fork_url: Option<String>,
        fork_block: Option<&str>,
        gas_limit: u64,
        tracing: bool,
        spec_id: &str,
    ) -> (r: Result<EVM, EvmError>)
        ensures
            match r {
                Ok(e) => e.wf() && e.model().accounts =~= Map::<Address, CellModel>::empty()
                    && e.model().logs =~= Seq::<crate::journal::LogModel>::empty()
                    && e.model().journal =~= Seq::<crate::journal::EntryModel>::empty()
                    && e.model().checkpoints =~= Seq::<(nat, nat)>::empty() && e.store_seq()
                    =~= Seq::<(Address, CellModel)>::empty() && e.block_hashes_spec()
                    =~= Seq::<(u64, Hash256)>::empty() && e.is_remote() == (fork_url is Some)
                    && e.gas_limit_spec() == gas_limit && e.last_result() is None
                    && e.spec_name_spec() == spec_id@ && e.chain_id_spec() == match env {
                    Some(ref ev) => ev.cfg.chain_id,
                    None => 1u64,
                } && e.block_env_spec() == match env {
                    Some(ref ev) => ev.block,
                    None => crate::env::default_block_env(),
                } && e.tx_env_spec() == match env {
                    Some(ref ev) => ev.tx@,
                    None => crate::env::default_tx_model(),
                } && e.remote_url_spec() == match fork_url {
                    Some(ref u) => Some(u@),
                    None => None::<Seq<char>>,
                } && e.pin_spec() == match fork_url {
                    Some(_) => Some(
                        match fork_block {
                            Some(b) => crate::hex::spec_block_pin_of(b@),
                            None => BlockPin::Latest,
                        },
                    ),
                    None => None::<BlockPin>,
                },
                Err(err) => err is InvalidArgument && fork_url is Some && (fork_block matches Some(
                    b,
                ) && !crate::hex::valid_block_pin_str(b@)),
            },
            r is Err <==> fork_url is Some && (fork_block matches Some(b)
                && !crate::hex::valid_block_pin_str(b@)),
    {
        let remote = match fork_url {
            Some(url) => {
                let pin = match fork_block {
                    Some(s) => match parse_block_pin(s) {
                        Ok(p) => p,
                        Err(e) => {
                            return Err(e);
                        },
                    },
                    None => BlockPin::Latest,
                };
                Some(RemoteConfig { url, pin })
            },
            None => None,
        };
        Ok(
            EVM {
                ctx: JournaledContext::new(),
                env: match env {
                    Some(e) => e,
                    None => Env::new(None, None, None),
                },
                gas_limit,
                spec_id: String::from_str(spec_id),
                tracing,
                remote,
                result: None,
                block_hashes: Vec::new(),
            },
        )
    }

    /// Basic account information. A pure in-memory instance never fails on
    /// a well-formed address; a remote-backed one asks for a fetch of any
    /// address it cannot serve locally yet.
    pub fn basic(&self, address: &str) -> (r: Result<AccountInfo, EvmError>)
        requires
            self.wf(),
        ensures
            match r {
                Ok(info) => valid_address_str(address@) && self.account_ready(
                    spec_address_of(address@),
                ) && info@ == map_info_of(self.model().accounts, spec_address_of(address@)),
                Err(e) => match e {
                    EvmError::InvalidArgument(_) => !valid_address_str(address@),
                    EvmError::RemoteFetchRequired(k) => valid_address_str(address@) && k
                        == RemoteKey::Account(spec_address_of(address@)) && !self.account_ready(
                        spec_address_of(address@),
                    ),
                    _ => false,
                },
            },
    {
        let a = match parse_address(address) {
            Ok(a) => a,
            Err(e) => {
                return Err(e);
            },
        };
        if self.remote.is_some() && !self.ctx.account_loaded(&a) {
            return Err(EvmError::RemoteFetchRequired(RemoteKey::Account(a)));
        }
        Ok(self.ctx.get_info(&a))
    }

    /// The code of an account, `None` when it has none (or empty code).
    pub fn get_code(&self, address: &str) -> (r: Result<Option<Vec<u8>>, EvmError>)
        requires
            self.wf(),
        ensures
            match r {
                Ok(c) => valid_address_str(address@) && self.account_ready(
                    spec_address_of(address@),
                ) && ({
                    let code = map_info_of(
                        self.model().accounts,
                        spec_address_of(address@),
                    ).code;
                    match c {
                        Some(b) => code == Some(b@) && b@.len() > 0,
                        None => code is None || code == Some(Seq::<u8>::empty()),
                    }
                }),
                Err(e) => match e {
                    EvmError::InvalidArgument(_) => !valid_address_str(address@),
                    EvmError::RemoteFetchRequired(k) => valid_address_str(address@) && k
                        == RemoteKey::Account(spec_address_of(address@)) && !self.account_ready(
                        spec_address_of(address@),
                    ),
                    _ => false,
                },
            },
    {
        let info = match self.basic(address) {
            Ok(i) => i,
            Err(e) => {
                return Err(e);
            },
        };
        match info.code {
            Some(c) => {
                if c.len() == 0 {
                    Ok(None)
                } else {
                    Ok(Some(c))
                }
            },
            None => Ok(None),
        }
    }

    /// The value of a storage slot. In a remote-backed instance the
    /// account must be served first, then any slot it misses.
    pub fn storage(&self, address: &str, index: Uint256) -> (r: Result<Uint256, EvmError>)
        requires
            self.wf(),
        ensures
            match r {
                Ok(v) => valid_address_str(address@) && self.account_ready(
                    spec_address_of(address@),
                ) && self.slot_ready(spec_address_of(address@), index) && v == map_slot_of(
                    self.model().accounts,
                    spec_address_of(address@),
                    index,
                ),
                Err(e) => match e {
                    EvmError::InvalidArgument(_) => !valid_address_str(address@),
                    EvmError::RemoteFetchRequired(k) => valid_address_str(address@) && (k
                        == RemoteKey::Account(spec_address_of(address@)) && !self.account_ready(
                        spec_address_of(address@),
                    ) || k == RemoteKey::Slot(spec_address_of(address@), index)
                        && self.account_ready(spec_address_of(address@)) && !self.slot_ready(
                        spec_address_of(address@),
                        index,
                    )),
                    _ => false,
                },
            },
    {
        let a = match parse_address(address) {
            Ok(a) => a,
            Err(e) => {
                return Err(e);
            },
        };
        if self.remote.is_some() {
            if !self.ctx.account_loaded(&a) {
                return Err(EvmError::RemoteFetchRequired(RemoteKey::Account(a)));
            }
            if !self.ctx.slot_cached(&a, &index) {
                return Err(EvmError::RemoteFetchRequired(RemoteKey::Slot(a, index)));
            }
        }
        Ok(self.ctx.get_slot(&a, &index))
    }

    /// The code whose digest is the given hash. The digest of the empty
    /// byte sequence always answers with empty code; otherwise the stored
    /// accounts are searched, and a miss is `NotFound`.
    pub fn code_by_hash(&self, hash: &str) -> (r: Result<Vec<u8>, EvmError>)
        requires
            self.wf(),
        ensures
            match r {
                Ok(c) => valid_hash_str(hash@) && ({
                    let h = spec_hash_of(hash@);
                    (h == keccak_of(Seq::<u8>::empty()) && c@ == Seq::<u8>::empty()) || (exists|
                        a: Address,
                    |
                        #[trigger] self.model().accounts.dom().contains(a)
                            && self.model().accounts[a].info.code_hash == h
                            && self.model().accounts[a].info.code == Some(c@))
                }),
                Err(e) => match e {
                    EvmError::InvalidArgument(_) => !valid_hash_str(hash@),
                    EvmError::NotFound => valid_hash_str(hash@) && spec_hash_of(hash@)
                        != keccak_of(Seq::<u8>::empty()) && (forall|a: Address|
                        #[trigger] self.model().accounts.dom().contains(a) ==> !(
                        self.model().accounts[a].info.code_hash == spec_hash_of(hash@)
                            && self.model().accounts[a].info.code is Some)),
                    _ => false,
                },
            },
    {
        let h = match parse_hash(hash) {
            Ok(h) => h,
            Err(e) => {
                return Err(e);
            },
        };
        let empty: Vec<u8> = Vec::new();
        let empty_hash = keccak_bytes(&empty);
        if h == empty_hash {
            return Ok(empty);
        }
        match self.ctx.code_lookup(&h) {
            Some(c) => Ok(c),
            None => Err(EvmError::NotFound),
        }
    }

    /// The hash of a block by number. A pure in-memory instance answers
    /// with the digest of the number's decimal rendering, as the engine's
    /// empty backing database does; a remote-backed one serves its cache
    /// or asks for a fetch.
    pub fn block_hash(&self, number: u64) -> (r: Result<Hash256, EvmError>)
        requires
            self.wf(),
        ensures
            match r {
                Ok(h) => if self.is_remote() {
                    bh_first(self.block_hashes_spec(), number) == Some(h)
                } else {
                    h == keccak_of(dec_bytes(number as int))
                },
                Err(e) => match e {
                    EvmError::RemoteFetchRequired(k) => self.is_remote() && k
                        == RemoteKey::BlockHash(number) && bh_first(
                        self.block_hashes_spec(),
                        number,
                    ) is None,
                    _ => false,
                },
            },
    {
        if self.remote.is_some() {
            let n = self.block_hashes.len();
            let mut i: usize = 0;
            while i < n
                invariant
                    self.is_remote(),
                    self.block_hashes_spec() == self.block_hashes@,
                    n == self.block_hashes@.len(),
                    i <= n,
                    forall|j: int| 0 <= j < i ==> (#[trigger] self.block_hashes@[j]).0 != number,
                decreases n - i,
            {
                if self.block_hashes[i].0 == number {
                    let h = self.block_hashes[i].1;
                    proof {
                        assert(self.block_hashes_spec()[i as int] == (number, h));
                        lemma_bh_first_at(self.block_hashes_spec(), number, i as int);
                    }
                    return Ok(h);
                }
                i += 1;
            }
            proof {
                lemma_bh_first_none(self.block_hashes_spec(), number);
            }
            Err(EvmError::RemoteFetchRequired(RemoteKey::BlockHash(number)))
        } else {
            let bytes = u64_decimal_bytes(number);
            Ok(keccak_bytes(&bytes))
        }
    }

    /// Caches an account answered by the remote source; `None` means the
    /// source has no data for it, which is the valid zero-valued answer.
    /// A cache fill: never journaled, never undone. Serving an address
    /// that is already ready changes nothing.
    pub fn install_fetched_account(&mut self, addr: Address, fetched: Option<AccountInfo>)
        requires
            old(self).wf(),
        ensures
            final(self).wf(),
            old(self).model().accounts.dom().contains(addr) || !old(self).is_remote()
                ==> final(self).model() == old(self).model(),
            !old(self).model().accounts.dom().contains(addr) && old(self).is_remote()
                ==> final(self).account_ready(addr) && final(self).model() == (CtxModel {
                accounts: old(self).model().accounts.insert(
                    addr,
                    CellModel {
                        info: match fetched {
                            Some(i) => i@,
                            None => InfoModel::zero(),
                        },
                        storage: Map::empty(),
                        loaded: true,
                    },
                ),
                ..old(self).model()
            }),
            final(self).is_remote() == old(self).is_remote(),
            final(self).block_hashes_spec() == old(self).block_hashes_spec(),
            final(self).gas_limit_spec() == old(self).gas_limit_spec(),
    {
        if self.remote.is_none() {
            return ;
        }
        if self.ctx.contains_account(&addr) {
            return ;
        }
        let info = match fetched {
            Some(i) => i,
            None => AccountInfo::zeroed(),
        };
        self.ctx.install_account(addr, info);
    }

    /// Caches one storage slot answered by the remote source. The
    /// account's entry must already be served; otherwise the account
    /// fetch is asked for first.
    pub fn install_fetched_slot(&mut self, addr: Address, key: Uint256, value: Uint256) -> (r:
        Result<(), EvmError>)
        requires
            old(self).wf(),
        ensures
            final(self).wf(),
            match r {
                Ok(u) => old(self).model().accounts.dom().contains(addr) && final(self).model()
                    == (CtxModel {
                    accounts: old(self).model().accounts.insert(
                        addr,
                        CellModel {
                            info: old(self).model().accounts[addr].info,
                            storage: old(self).model().accounts[addr].storage.insert(key, value),
                            loaded: old(self).model().accounts[addr].loaded,
                        },
                    ),
                    ..old(self).model()
                }),
                Err(e) => e == EvmError::RemoteFetchRequired(RemoteKey::Account(addr))
                    && !old(self).model().accounts.dom().contains(addr)
                    && final(self).model() == old(self).model(),
            },
            final(self).is_remote() == old(self).is_remote(),
            final(self).block_hashes_spec() == old(self).block_hashes_spec(),
    {
        if !self.ctx.contains_account(&addr) {
            return Err(EvmError::RemoteFetchRequired(RemoteKey::Account(addr)));
        }
        self.ctx.install_slot(addr, key, value);
        Ok(())
    }

    /// Records the current journal length and log count as a checkpoint
    /// token. Pure bookkeeping; cannot fail.
    pub fn snapshot(&mut self) -> (r: JournalCheckpoint)
        requires
            old(self).wf(),
        ensures
            final(self).wf(),
            final(self).model() == snapshot_step(old(self).model()).0,
            (r.journal_i as nat, r.log_i as nat) == snapshot_step(old(self).model()).1,
            final(self).is_remote() == old(self).is_remote(),
            final(self).gas_limit_spec() == old(self).gas_limit_spec(),
    {
        self.ctx.snapshot()
    }

    /// Rolls back to a held checkpoint: every journal entry recorded
    /// after it is undone in reverse order, each undo restoring the exact
    /// prior value recorded at mutation time; logs past its count are
    /// discarded; the token and every token taken after it are removed.
    pub fn revert(&mut self, token: JournalCheckpoint) -> (r: Result<(), EvmError>)
        requires
            old(self).wf(),
        ensures
            final(self).wf(),
            ({
                let res = revert_step(
                    old(self).model(),
                    (token.journal_i as nat, token.log_i as nat),
                );
                match r {
                    Ok(u) => res is Ok && final(self).model() == res->Ok_0,
                    Err(e) => res is Err && e == res->Err_0
                        && final(self).model() == old(self).model(),
                }
            }),
            final(self).is_remote() == old(self).is_remote(),
            final(self).gas_limit_spec() == old(self).gas_limit_spec(),
    {
        self.ctx.revert(token)
    }

    /// Discards every outstanding checkpoint without undoing anything:
    /// the current state becomes the new baseline. Idempotent.
    pub fn commit(&mut self)
        requires
            old(self).wf(),
        ensures
            final(self).wf(),
            final(self).model() == commit_step(old(self).model()),
            final(self).is_remote() == old(self).is_remote(),
            final(self).gas_limit_spec() == old(self).gas_limit_spec(),
    {
        self.ctx.commit()
    }

    /// Replaces the account information of an address; its storage slots
    /// are untouched. The write is journaled while a checkpoint is
    /// outstanding.
    pub fn insert_account_info(&mut self, address: &str, info: AccountInfo) -> (r: Result<
        (),
        EvmError,
    >)
        requires
            old(self).wf(),
        ensures
            final(self).wf(),
            match r {
                Ok(u) => valid_address_str(address@) && final(self).model() == apply_write(
                    old(self).model(),
                    WriteOp::InsertInfo { addr: spec_address_of(address@), info: info@ },
                ),
                Err(e) => e is InvalidArgument && !valid_address_str(address@)
                    && final(self).model() == old(self).model(),
            },
            final(self).is_remote() == old(self).is_remote(),
            final(self).gas_limit_spec() == old(self).gas_limit_spec(),
    {
        let a = match parse_address(address) {
            Ok(a) => a,
            Err(e) => {
                return Err(e);
            },
        };
        self.ctx.insert_info(a, info);
        Ok(())
    }

    /// Sets the balance of an address, creating its zero-valued entry if
    /// there is none. In a remote-backed instance the account must be
    /// served first, so that the write does not bury its remote nonce and
    /// code under a zero-valued entry.
    pub fn set_balance(&mut self, address: &str, balance: Uint256) -> (r: Result<(), EvmError>)
        requires
            old(self).wf(),
        ensures
            final(self).wf(),
            match r {
                Ok(u) => valid_address_str(address@) && old(self).account_ready(
                    spec_address_of(address@),
                ) && final(self).model() == apply_write(
                    old(self).model(),
                    WriteOp::SetBalance { addr: spec_address_of(address@), value: balance },
                ),
                Err(e) => final(self).model() == old(self).model() && match e {
                    EvmError::InvalidArgument(_) => !valid_address_str(address@),
                    EvmError::RemoteFetchRequired(k) => valid_address_str(address@) && k
                        == RemoteKey::Account(spec_address_of(address@))
                        && !old(self).account_ready(spec_address_of(address@)),
                    _ => false,
                },
            },
            final(self).is_remote() == old(self).is_remote(),
            final(self).gas_limit_spec() == old(self).gas_limit_spec(),
    {
        let a = match parse_address(address) {
            Ok(a) => a,
            Err(e) => {
                return Err(e);
            },
        };
        if self.remote.is_some() && !self.ctx.account_loaded(&a) {
            return Err(EvmError::RemoteFetchRequired(RemoteKey::Account(a)));
        }
        self.ctx.set_balance(a, balance);
        Ok(())
    }

    /// The balance of an address.
    pub fn get_balance(&self, address: &str) -> (r: Result<Uint256, EvmError>)
        requires
            self.wf(),
        ensures
            match r {
                Ok(v) => valid_address_str(address@) && self.account_ready(
                    spec_address_of(address@),
                ) && v == map_info_of(self.model().accounts, spec_address_of(address@)).balance,
                Err(e) => match e {
                    EvmError::InvalidArgument(_) => !valid_address_str(address@),
                    EvmError::RemoteFetchRequired(k) => valid_address_str(address@) && k
                        == RemoteKey::Account(spec_address_of(address@)) && !self.account_ready(
                        spec_address_of(address@),
                    ),
                    _ => false,
                },
            },
    {
        match self.basic(address) {
            Ok(info) => Ok(info.balance),
            Err(e) => Err(e),
        }
    }

    /// Writes one storage slot of an address, creating its zero-valued
    /// entry if there is none. In a remote-backed instance the account
    /// must be served first.
    pub fn set_storage(&mut self, address: &str, index: Uint256, value: Uint256) -> (r: Result<
        (),
        EvmError,
    >)
        requires
            old(self).wf(),
        ensures
            final(self).wf(),
            match r {
                Ok(u) => valid_address_str(address@) && old(self).account_ready(
                    spec_address_of(address@),
                ) && final(self).model() == apply_write(
                    old(self).model(),
                    WriteOp::SetStorage {
                        addr: spec_address_of(address@),
                        key: index,
                        value,
                    },
                ),
                Err(e) => final(self).model() == old(self).model() && match e {
                    EvmError::InvalidArgument(_) => !valid_address_str(address@),
                    EvmError::RemoteFetchRequired(k) => valid_address_str(address@) && k
                        == RemoteKey::Account(spec_address_of(address@))
                        && !old(self).account_ready(spec_address_of(address@)),
                    _ => false,
                },
            },
            final(self).is_remote() == old(self).is_remote(),
            final(self).gas_limit_spec() == old(self).gas_limit_spec(),
    {
        let a = match parse_address(address) {
            Ok(a) => a,
            Err(e) => {
                return Err(e);
            },
        };
        if self.remote.is_some() && !self.ctx.account_loaded(&a) {
            return Err(EvmError::RemoteFetchRequired(RemoteKey::Account(a)));
        }
        self.ctx.set_storage(a, index, value);
        Ok(())
    }

    /// Removes an address's account altogether, as a self-destruct in a
    /// committed diff does; journaled while a checkpoint is outstanding.
    /// On a remote-backed instance the address then stays locally
    /// authoritative as the zero-valued account — a cache fill, never
    /// journaled — so later reads do not resurrect the destroyed account
    /// from the remote source; a revert of the destroy still restores the
    /// exact prior cell over it.
    pub fn destroy_account(&mut self, address: &str) -> (r: Result<(), EvmError>)
        requires
            old(self).wf(),
        ensures
            final(self).wf(),
            match r {
                Ok(u) => valid_address_str(address@) && ({
                    let gone = apply_write(
                        old(self).model(),
                        WriteOp::Destroy { addr: spec_address_of(address@) },
                    );
                    if old(self).is_remote() {
                        final(self).model() == (CtxModel {
                            accounts: gone.accounts.insert(
                                spec_address_of(address@),
                                CellModel {
                                    info: InfoModel::zero(),
                                    storage: Map::empty(),
                                    loaded: true,
                                },
                            ),
                            ..gone
                        })
                    } else {
                        final(self).model() == gone
                    }
                }),
                Err(e) => e is InvalidArgument && !valid_address_str(address@)
                    && final(self).model() == old(self).model(),
            },
            final(self).is_remote() == old(self).is_remote(),
            final(self).gas_limit_spec() == old(self).gas_limit_spec(),
            final(self).block_hashes_spec() == old(self).block_hashes_spec(),
            final(self).last_result() == old(self).last_result(),
    {
        let a = match parse_address(address) {
            Ok(a) => a,
            Err(e) => {
                return Err(e);
            },
        };
        self.ctx.destroy_account(a);
        if self.remote.is_some() {
            self.ctx.install_account(a, AccountInfo::zeroed());
        }
        Ok(())
    }

    /// The held checkpoint tokens, oldest first.
    pub fn checkpoint_ids(&self) -> (r: Vec<JournalCheckpoint>)
        ensures
            r@.len() == self.model().checkpoints.len(),
            forall|i: int|
                0 <= i < r@.len() ==> ((#[trigger] r@[i]).journal_i as nat, r@[i].log_i as nat)
                    == self.model().checkpoints[i],
    {
        self.ctx.checkpoint_list()
    }

    /// How many checkpoints are outstanding.
    pub fn journal_depth(&self) -> (r: usize)
        ensures
            r == self.model().checkpoints.len(),
    {
        self.ctx.depth()
    }

    /// How many journal entries are recorded.
    pub fn journal_len(&self) -> (r: usize)
        ensures
            r == self.model().journal.len(),
    {
        self.ctx.journal_len()
    }

    /// How many logs have been kept.
    pub fn log_count(&self) -> (r: usize)
        ensures
            r == self.model().logs.len(),
    {
        self.ctx.log_count()
    }

    /// The environment defaults of this instance.
    pub fn env(&self) -> (r: &Env)
        ensures
            r.cfg.chain_id == self.chain_id_spec(),
            r.block == self.block_env_spec(),
            r.tx@ == self.tx_env_spec(),
    {
        &self.env
    }

    /// Replaces the ambient block parameters.
    pub fn set_block_env(&mut self, block: crate::env::BlockEnv)
        requires
            old(self).wf(),
        ensures
            final(self).wf(),
            final(self).model() == old(self).model(),
            final(self).block_env_spec() == block,
            final(self).tx_env_spec() == old(self).tx_env_spec(),
            final(self).chain_id_spec() == old(self).chain_id_spec(),
            final(self).spec_name_spec() == old(self).spec_name_spec(),
            final(self).last_result() == old(self).last_result(),
            final(self).block_hashes_spec() == old(self).block_hashes_spec(),
            final(self).is_remote() == old(self).is_remote(),
            final(self).gas_limit_spec() == old(self).gas_limit_spec(),
    {
        self.env.block = block;
    }

    /// Replaces the ambient transaction defaults.
    pub fn set_tx_env(&mut self, tx: crate::env::TxEnv)
        requires
            old(self).wf(),
        ensures
            final(self).wf(),
            final(self).model() == old(self).model(),
            final(self).tx_env_spec() == tx@,
            final(self).block_env_spec() == old(self).block_env_spec(),
            final(self).chain_id_spec() == old(self).chain_id_spec(),
            final(self).spec_name_spec() == old(self).spec_name_spec(),
            final(self).last_result() == old(self).last_result(),
            final(self).block_hashes_spec() == old(self).block_hashes_spec(),
            final(self).is_remote() == old(self).is_remote(),
            final(self).gas_limit_spec() == old(self).gas_limit_spec(),
    {
        self.env.tx = tx;
    }

    /// The outcome of the last run, if there was one.
    pub fn result(&self) -> (r: &Option<ExecutionResult>)
        ensures
            match r {
                Some(res) => self.last_result() == Some(res@),
                None => self.last_result() is None,
            },
    {
        &self.result
    }

    /// The historical pin of a remote-backed instance, `None` when pure
    /// in-memory.
    pub fn fork_pin(&self) -> (r: Option<BlockPin>)
        ensures
            r == self.pin_spec(),
    {
        match &self.remote {
            Some(rc) => Some(rc.pin),
            None => None,
        }
    }

    /// The remote source locator, `None` when pure in-memory.
    pub fn fork_url(&self) -> (r: Option<&String>)
        ensures
            match r {
                Some(u) => self.remote_url_spec() == Some(u@),
                None => self.remote_url_spec() is None,
            },
    {
        match &self.remote {
            Some(rc) => Some(&rc.url),
            None => None,
        }
    }

    /// Every stored account with its rendered address, for introspection.
    pub fn get_accounts(&self) -> (r: Vec<(String, AccountInfo)>)
        requires
            self.wf(),
        ensures
            r@.len() == self.store_seq().len(),
            forall|i: int|
                0 <= i < r@.len() ==> (#[trigger] r@[i]).0@ == address_hex(
                    self.store_seq()[i].0,
                ) && r@[i].1@ == self.store_seq()[i].1.info,
    {
        let mut out: Vec<(String, AccountInfo)> = Vec::new();
        let n = self.ctx.account_count();
        let mut i: usize = 0;
        while i < n
            invariant
                self.wf(),
                n == self.store_seq().len(),
                i <= n,
                out@.len() == i,
                forall|j: int|
                    0 <= j < i ==> (#[trigger] out@[j]).0@ == address_hex(
                        self.store_seq()[j].0,
                    ) && out@[j].1@ == self.store_seq()[j].1.info,
            decreases n - i,
        {
            let a = self.ctx.account_addr_at(i);
            let info = self.ctx.account_info_at(i);
            out.push((format_address(&a), info));
            i += 1;
        }
        out
    }

    /// The same mapping under its other introspection name.
    pub fn db_accounts(&self) -> (r: Vec<(String, AccountInfo)>)
        requires
            self.wf(),
        ensures
            r@.len() == self.store_seq().len(),
            forall|i: int|
                0 <= i < r@.len() ==> (#[trigger] r@[i]).0@ == address_hex(
                    self.store_seq()[i].0,
                ) && r@[i].1@ == self.store_seq()[i].1.info,
    {
        self.get_accounts()
    }

    /// Builds the engine's scratch database: an exact image of the stored
    /// accounts, info and slots alike, every account with its code
    /// inline. An address absent from the ledger is absent from the
    /// image: the engine reads it through the empty backing database as a
    /// non-existing account — the modern reading, under which a
    /// non-existing and an existing-empty account behave alike — matching
    /// the zero-default the library's own reads give.
    fn build_scratch(&self) -> (db: revm::database::CacheDB<revm::database_interface::EmptyDB>)
        requires
            self.wf(),
        ensures
            scratch_accounts(db) == scratch_of(self.model().accounts),
    {
        let mut db = scratch_new();
        proof {
            self.ctx.lemma_store_seq();
            assert(scratch_accounts(db) =~= Map::<Address, ScratchCell>::empty());
        }
        let n = self.ctx.account_count();
        let mut i: usize = 0;
        while i < n
            invariant
                self.wf(),
                n == self.store_seq().len(),
                i <= n,
                forall|j: int, k: int|
                    0 <= j < k < self.store_seq().len() ==> self.store_seq()[j].0
                        != self.store_seq()[k].0,
                forall|j: int|
                    0 <= j < self.store_seq().len() ==> self.model().accounts.dom().contains(
                        (#[trigger] self.store_seq()[j]).0,
                    ) && self.model().accounts[self.store_seq()[j].0] == self.store_seq()[j].1,
                forall|j: int|
                    0 <= j < i ==> scratch_accounts(db).dom().contains(
                        (#[trigger] self.store_seq()[j]).0,
                    ) && scratch_accounts(db)[self.store_seq()[j].0] == (ScratchCell {
                        info: scratch_info_norm(inline_code(self.store_seq()[j].1.info)),
                        storage: self.store_seq()[j].1.storage,
                    }),
                forall|a: Address|
                    #[trigger] scratch_accounts(db).dom().contains(a) ==> exists|j: int|
                        0 <= j < i && (#[trigger] self.store_seq()[j]).0 == a,
            decreases n - i,
        {
            let addr = self.ctx.account_addr_at(i);
            let info0 = self.ctx.account_info_at(i);
            // Code goes into the image inline, so the engine never reads
            // the cache's hash-keyed code table.
            let info = if info0.code.is_some() {
                info0
            } else {
                AccountInfo {
                    balance: info0.balance,
                    nonce: info0.nonce,
                    code: Some(Vec::new()),
                    code_hash: info0.code_hash,
                }
            };
            proof {
                assert(info@ =~= inline_code(self.store_seq()[i as int].1.info));
                if scratch_accounts(db).dom().contains(addr) {
                    let j = choose|j: int|
                        0 <= j < i && (#[trigger] self.store_seq()[j]).0 == addr;
                    assert(false);
                }
            }
            scratch_insert_info(&mut db, &addr, &info);
            let m = self.ctx.account_slots_len_at(i);
            let mut k: usize = 0;
            proof {
                self.ctx.lemma_slots_at(i as int);
                assert(crate::store::slots_map(self.ctx.store_slots_at(i as int).take(0))
                    =~= Map::<Uint256, Uint256>::empty());
            }
            while k < m
                invariant
                    self.wf(),
                    i < self.store_seq().len(),
                    addr == self.store_seq()[i as int].0,
                    m == self.ctx.store_slots_at(i as int).len(),
                    k <= m,
                    crate::store::slot_keys_unique(self.ctx.store_slots_at(i as int)),
                    crate::store::slots_map(self.ctx.store_slots_at(i as int))
                        == self.store_seq()[i as int].1.storage,
                    scratch_accounts(db).dom().contains(addr),
                    scratch_accounts(db)[addr].info == scratch_info_norm(
                        inline_code(self.store_seq()[i as int].1.info),
                    ),
                    scratch_accounts(db)[addr].storage == crate::store::slots_map(
                        self.ctx.store_slots_at(i as int).take(k as int),
                    ),
                    forall|j: int|
                        0 <= j < i ==> scratch_accounts(db).dom().contains(
                            (#[trigger] self.store_seq()[j]).0,
                        ) && scratch_accounts(db)[self.store_seq()[j].0] == (ScratchCell {
                            info: scratch_info_norm(inline_code(self.store_seq()[j].1.info)),
                            storage: self.store_seq()[j].1.storage,
                        }),
                    forall|a: Address|
                        #[trigger] scratch_accounts(db).dom().contains(a) ==> a == addr || exists|
                            j: int,
                        | 0 <= j < i && (#[trigger] self.store_seq()[j]).0 == a,
                    forall|j: int, k2: int|
                        0 <= j < k2 < self.store_seq().len() ==> self.store_seq()[j].0
                            != self.store_seq()[k2].0,
                decreases m - k,
            {
                let pair = self.ctx.account_slot_at(i, k);
                let ghost slots = self.ctx.store_slots_at(i as int);
                proof {
                    assert(slots.take(k as int + 1).drop_last() =~= slots.take(k as int));
                    assert(slots.take(k as int + 1).last() == pair);
                    assert(crate::store::slot_keys_unique(slots.take(k as int))) by {
                        assert forall|p: int, q: int|
                            0 <= p < q < k implies slots.take(k as int)[p].0 != slots.take(
                            k as int,
                        )[q].0 by {
                            assert(slots[p].0 != slots[q].0);
                        }
                    }
                    if crate::store::slot_has_key(slots.take(k as int), pair.0) {
                        let t = crate::store::slot_index_of(slots.take(k as int), pair.0);
                        assert(slots[t].0 == pair.0 && slots[k as int].0 == pair.0);
                        assert(false);
                    }
                    crate::store::lemma_slots_push(slots.take(k as int), pair.0, pair.1);
                    assert(slots.take(k as int).push((pair.0, pair.1)) =~= slots.take(
                        k as int + 1,
                    ));
                }
                scratch_insert_slot(&mut db, &addr, &pair.0, &pair.1);
                k += 1;
            }
            proof {
                let slots = self.ctx.store_slots_at(i as int);
                assert(slots.take(m as int) =~= slots);
            }
            i += 1;
        }
        proof {
            assert(scratch_accounts(db) =~= scratch_of(self.model().accounts)) by {
                assert forall|a: Address|
                    #[trigger] self.model().accounts.dom().contains(a) implies scratch_accounts(
                    db,
                ).dom().contains(a) && scratch_accounts(db)[a] == (ScratchCell {
                    info: scratch_info_norm(inline_code(self.model().accounts[a].info)),
                    storage: self.model().accounts[a].storage,
                }) by {
                    let j = choose|j: int|
                        0 <= j < self.store_seq().len() && (#[trigger] self.store_seq()[j]).0
                            == a;
                }
            }
        }
        db
    }

    /// Applies a returned state diff into the journaled store, entry by
    /// entry: untouched accounts are skipped, destroyed accounts removed,
    /// the rest get their new info and written slots. Every write is
    /// journaled while a checkpoint is outstanding.
    fn commit_diff(&mut self, diff: &Vec<DiffEntry>)
        requires
            old(self).wf(),
        ensures
            final(self).wf(),
            final(self).model() == apply_writes(
                old(self).model(),
                diff_ops(diff@.map_values(|e: DiffEntry| e@)),
            ),
            final(self).is_remote() == old(self).is_remote(),
            final(self).gas_limit_spec() == old(self).gas_limit_spec(),
            final(self).block_hashes_spec() == old(self).block_hashes_spec(),
            final(self).last_result() == old(self).last_result(),
            final(self).block_env_spec() == old(self).block_env_spec(),
            final(self).tx_env_spec() == old(self).tx_env_spec(),
            final(self).chain_id_spec() == old(self).chain_id_spec(),
            final(self).spec_name_spec() == old(self).spec_name_spec(),
            final(self).pin_spec() == old(self).pin_spec(),
            final(self).remote_url_spec() == old(self).remote_url_spec(),
    {
        let ghost m0 = self.model();
        let ghost models = diff@.map_values(|e: DiffEntry| e@);
        let n = diff.len();
        let mut i: usize = 0;
        proof {
            assert(diff_ops(models.take(0)) =~= Seq::<WriteOp>::empty());
        }
        while i < n
            invariant
                self.wf(),
                n == diff@.len(),
                i <= n,
                models == diff@.map_values(|e: DiffEntry| e@),
                self.model() == apply_writes(m0, diff_ops(models.take(i as int))),
                self.is_remote() == old(self).is_remote(),
                self.gas_limit_spec() == old(self).gas_limit_spec(),
                self.block_hashes_spec() == old(self).block_hashes_spec(),
                self.last_result() == old(self).last_result(),
                self.block_env_spec() == old(self).block_env_spec(),
                self.tx_env_spec() == old(self).tx_env_spec(),
                self.chain_id_spec() == old(self).chain_id_spec(),
                self.spec_name_spec() == old(self).spec_name_spec(),
                self.pin_spec() == old(self).pin_spec(),
                self.remote_url_spec() == old(self).remote_url_spec(),
            decreases n - i,
        {
            let ghost m_entry = self.model();
            let ghost e_model = models[i as int];
            proof {
                assert(models.take(i as int + 1).drop_last() =~= models.take(i as int));
                assert(models.take(i as int + 1).last() == e_model);
            }
            let entry = &diff[i];
            if !entry.touched {
                proof {
                    assert(entry_ops(e_model) =~= Seq::<WriteOp>::empty());
                    lemma_apply_writes_concat(m0, diff_ops(models.take(i as int)), entry_ops(e_model));
                    assert(diff_ops(models.take(i as int)) + entry_ops(e_model) =~= diff_ops(
                        models.take(i as int + 1),
                    ));
                }
            } else if entry.selfdestructed {
                self.ctx.destroy_account(entry.addr);
                proof {
                    assert(entry_ops(e_model) =~= seq![WriteOp::Destroy { addr: e_model.addr }]);
                    assert(entry_ops(e_model).drop_last() =~= Seq::<WriteOp>::empty());
                    assert(apply_writes(m_entry, Seq::<WriteOp>::empty()) == m_entry);
                    assert(apply_writes(m_entry, entry_ops(e_model)) == apply_write(
                        m_entry,
                        WriteOp::Destroy { addr: e_model.addr },
                    ));
                    lemma_apply_writes_concat(m0, diff_ops(models.take(i as int)), entry_ops(e_model));
                    assert(diff_ops(models.take(i as int)) + entry_ops(e_model) =~= diff_ops(
                        models.take(i as int + 1),
                    ));
                }
            } else {
                let info = entry.info.duplicate();
                self.ctx.insert_info(entry.addr, info);
                let ghost base_ops = seq![
                    WriteOp::InsertInfo { addr: e_model.addr, info: e_model.info },
                ];
                proof {
                    assert(base_ops.drop_last() =~= Seq::<WriteOp>::empty());
                    assert(apply_writes(m_entry, Seq::<WriteOp>::empty()) == m_entry);
                    assert(apply_writes(m_entry, base_ops) == apply_write(m_entry, base_ops[0]));
                }
                let m = entry.storage.len();
                let mut k: usize = 0;
                proof {
                    assert(base_ops + e_model.storage.take(0).map_values(
                        |p: (Uint256, Uint256)|
                            WriteOp::SetStorage { addr: e_model.addr, key: p.0, value: p.1 },
                    ) =~= base_ops);
                }
                while k < m
                    invariant
                        self.wf(),
                        i < diff@.len(),
                        e_model == diff@.map_values(|e: DiffEntry| e@)[i as int],
                        m == entry.storage@.len(),
                        entry == &diff@[i as int],
                        e_model.storage == entry.storage@,
                        e_model.addr == entry.addr,
                        k <= m,
                        self.model() == apply_writes(
                            m_entry,
                            seq![
                                WriteOp::InsertInfo { addr: e_model.addr, info: e_model.info },
                            ] + e_model.storage.take(k as int).map_values(
                                |p: (Uint256, Uint256)|
                                    WriteOp::SetStorage {
                                        addr: e_model.addr,
                                        key: p.0,
                                        value: p.1,
                                    },
                            ),
                        ),
                        self.is_remote() == old(self).is_remote(),
                        self.gas_limit_spec() == old(self).gas_limit_spec(),
                        self.block_hashes_spec() == old(self).block_hashes_spec(),
                        self.last_result() == old(self).last_result(),
                        self.block_env_spec() == old(self).block_env_spec(),
                        self.tx_env_spec() == old(self).tx_env_spec(),
                        self.chain_id_spec() == old(self).chain_id_spec(),
                        self.spec_name_spec() == old(self).spec_name_spec(),
                        self.pin_spec() == old(self).pin_spec(),
                        self.remote_url_spec() == old(self).remote_url_spec(),
                    decreases m - k,
                {
                    let pair = entry.storage[k];
                    let ghost ops_before = seq![
                        WriteOp::InsertInfo { addr: e_model.addr, info: e_model.info },
                    ] + e_model.storage.take(k as int).map_values(
                        |p: (Uint256, Uint256)|
                            WriteOp::SetStorage { addr: e_model.addr, key: p.0, value: p.1 },
                    );
                    self.ctx.set_storage(entry.addr, pair.0, pair.1);
                    proof {
                        lemma_apply_writes_push(
                            m_entry,
                            ops_before,
                            WriteOp::SetStorage {
                                addr: e_model.addr,
                                key: pair.0,
                                value: pair.1,
                            },
                        );
                        assert(ops_before.push(
                            WriteOp::SetStorage { addr: e_model.addr, key: pair.0, value: pair.1 },
                        ) =~= seq![
                            WriteOp::InsertInfo { addr: e_model.addr, info: e_model.info },
                        ] + e_model.storage.take(k as int + 1).map_values(
                            |p: (Uint256, Uint256)|
                                WriteOp::SetStorage { addr: e_model.addr, key: p.0, value: p.1 },
                        ));
                    }
                    k += 1;
                }
                proof {
                    assert(e_model.storage.take(m as int) =~= e_model.storage);
                    assert(seq![
                        WriteOp::InsertInfo { addr: e_model.addr, info: e_model.info },
                    ] + e_model.storage.map_values(
                        |p: (Uint256, Uint256)|
                            WriteOp::SetStorage { addr: e_model.addr, key: p.0, value: p.1 },
                    ) =~= entry_ops(e_model));
                    lemma_apply_writes_concat(m0, diff_ops(models.take(i as int)), entry_ops(e_model));
                    assert(diff_ops(models.take(i as int)) + entry_ops(e_model) =~= diff_ops(
                        models.take(i as int + 1),
                    ));
                }
            }
            i += 1;
        }
        proof {
            assert(models.take(n as int) =~= models);
        }
    }

    /// Appends the logs of a committed run to the ledger, in emission
    /// order; journaled while a checkpoint is outstanding.
    fn append_logs(&mut self, logs: &Vec<Log>)
        requires
            old(self).wf(),
        ensures
            final(self).wf(),
            final(self).model() == crate::journal::append_logs_step(
                old(self).model(),
                logs@.map_values(|l: Log| l@),
            ),
            final(self).is_remote() == old(self).is_remote(),
            final(self).gas_limit_spec() == old(self).gas_limit_spec(),
            final(self).block_hashes_spec() == old(self).block_hashes_spec(),
            final(self).last_result() == old(self).last_result(),
            final(self).block_env_spec() == old(self).block_env_spec(),
            final(self).tx_env_spec() == old(self).tx_env_spec(),
            final(self).chain_id_spec() == old(self).chain_id_spec(),
            final(self).spec_name_spec() == old(self).spec_name_spec(),
            final(self).pin_spec() == old(self).pin_spec(),
            final(self).remote_url_spec() == old(self).remote_url_spec(),
    {
        let ghost views = logs@.map_values(|l: Log| l@);
        let n = logs.len();
        let mut i: usize = 0;
        proof {
            assert(self.model() =~= crate::journal::append_logs_step(
                old(self).model(),
                views.take(0),
            ));
        }
        while i < n
            invariant
                self.wf(),
                n == logs@.len(),
                i <= n,
                views == logs@.map_values(|l: Log| l@),
                self.model() == crate::journal::append_logs_step(
                    old(self).model(),
                    views.take(i as int),
                ),
                self.is_remote() == old(self).is_remote(),
                self.gas_limit_spec() == old(self).gas_limit_spec(),
                self.block_hashes_spec() == old(self).block_hashes_spec(),
                self.last_result() == old(self).last_result(),
                self.block_env_spec() == old(self).block_env_spec(),
                self.tx_env_spec() == old(self).tx_env_spec(),
                self.chain_id_spec() == old(self).chain_id_spec(),
                self.spec_name_spec() == old(self).spec_name_spec(),
                self.pin_spec() == old(self).pin_spec(),
                self.remote_url_spec() == old(self).remote_url_spec(),
            decreases n - i,
        {
            self.ctx.append_log(logs[i].duplicate());
            proof {
                assert(self.model() =~= crate::journal::append_logs_step(
                    old(self).model(),
                    views.take(i as int + 1),
                ));
            }
            i += 1;
        }
        proof {
            assert(views.take(n as int) =~= views);
        }
    }

    /// Whether a returned diff is free of state mutation under the
    /// simulator's static policy: every touched account keeps its balance,
    /// code and code hash (the caller may bump its nonce), writes no slot,
    /// and destroys nothing.
    pub open spec fn diff_static_ok_spec(
        m: Map<Address, CellModel>,
        d: Seq<DiffModel>,
        caller: Address,
    ) -> bool {
        forall|i: int|
            0 <= i < d.len() ==> ((#[trigger] d[i]).touched ==> !d[i].selfdestructed
                && d[i].storage.len() == 0 && d[i].info.balance == map_info_of(m, d[i].addr).balance
                && crate::account::norm_code(d[i].info.code) == crate::account::norm_code(
                map_info_of(m, d[i].addr).code,
            ) && d[i].info.code_hash == map_info_of(m, d[i].addr).code_hash && (d[i].addr == caller
                || d[i].info.nonce == map_info_of(m, d[i].addr).nonce))
    }

    /// Checks the static policy against the current ledger.
    fn diff_static_ok(&self, d: &Vec<DiffEntry>, caller: &Address) -> (r: bool)
        requires
            self.wf(),
        ensures
            r == Self::diff_static_ok_spec(
                self.model().accounts,
                d@.map_values(|e: DiffEntry| e@),
                *caller,
            ),
    {
        let ghost models = d@.map_values(|e: DiffEntry| e@);
        let n = d.len();
        let mut i: usize = 0;
        while i < n
            invariant
                self.wf(),
                n == d@.len(),
                i <= n,
                models == d@.map_values(|e: DiffEntry| e@),
                forall|j: int|
                    0 <= j < i ==> ((#[trigger] models[j]).touched ==> !models[j].selfdestructed
                        && models[j].storage.len() == 0 && models[j].info.balance == map_info_of(
                        self.model().accounts,
                        models[j].addr,
                    ).balance && crate::account::norm_code(models[j].info.code)
                        == crate::account::norm_code(
                        map_info_of(self.model().accounts, models[j].addr).code,
                    ) && models[j].info.code_hash == map_info_of(
                        self.model().accounts,
                        models[j].addr,
                    ).code_hash && (models[j].addr == *caller || models[j].info.nonce
                        == map_info_of(self.model().accounts, models[j].addr).nonce)),
            decreases n - i,
        {
            let e = &d[i];
            proof {
                assert(models[i as int] == d@[i as int]@);
            }
            if e.touched {
                let cur = self.ctx.get_info(&e.addr);
                if e.selfdestructed {
                    return false;
                }
                if e.storage.len() != 0 {
                    return false;
                }
                if e.info.balance != cur.balance {
                    return false;
                }
                if !crate::account::codes_norm_eq(&e.info.code, &cur.code) {
                    return false;
                }
                if e.info.code_hash != cur.code_hash {
                    return false;
                }
                if !(e.addr == *caller) && e.info.nonce != cur.nonce {
                    return false;
                }
            }
            i += 1;
        }
        true
    }

    /// Runs one transaction against an image of the current state and
    /// hands back the outcome and the diff; the ledger itself is never
    /// touched. The run is `run_spec` of the arguments; the returned
    /// pieces and the recorded outcome are its fields, after the static
    /// policy. The engine's pre-execution rejection surfaces as
    /// `ValidationError` and clears the recorded outcome.
    fn run_local(
        &mut self,
        caller: Address,
        target: Option<Address>,
        data: Vec<u8>,
        value: Uint256,
        gas: Option<u64>,
        gas_price: Option<u128>,
        is_static: bool,
    ) -> (r: Result<RunOutput, EvmError>)
        requires
            old(self).wf(),
            !old(self).is_remote(),
        ensures
            final(self).wf(),
            final(self).model() == old(self).model(),
            final(self).is_remote() == old(self).is_remote(),
            final(self).gas_limit_spec() == old(self).gas_limit_spec(),
            final(self).block_hashes_spec() == old(self).block_hashes_spec(),
            final(self).block_env_spec() == old(self).block_env_spec(),
            final(self).tx_env_spec() == old(self).tx_env_spec(),
            final(self).chain_id_spec() == old(self).chain_id_spec(),
            final(self).spec_name_spec() == old(self).spec_name_spec(),
            final(self).pin_spec() == old(self).pin_spec(),
            final(self).remote_url_spec() == old(self).remote_url_spec(),
            match r {
                Ok(out) => ({
                    let run = old(self).run_spec(caller, target, value, data@, gas, gas_price);
                    let eff = effective_reason(old(self).model().accounts, run, caller, is_static);
                    &&& run.accepted
                    &&& out.success == crate::result::reason_is_success(eff)
                    &&& (out.output matches Some(v) ==> run.output == Some(v@))
                    &&& (out.output is None ==> run.output is None)
                    &&& out.created == run.created
                    &&& out.logs@.map_values(|l: Log| l@) == run.logs
                    &&& (is_static && !diff_static_ok_map(
                        old(self).model().accounts,
                        run.diff,
                        caller,
                    ) ==> out.diff@ =~= Seq::<DiffEntry>::empty())
                    &&& (!(is_static && !diff_static_ok_map(
                        old(self).model().accounts,
                        run.diff,
                        caller,
                    )) ==> enumerates(out.diff@.map_values(|e: DiffEntry| e@), run.diff))
                    &&& final(self).last_result() == Some(
                        crate::result::projected(eff, run.gas_used, run.gas_refunded, run.logs),
                    )
                }),
                Err(e) => ({
                    let run = old(self).run_spec(caller, target, value, data@, gas, gas_price);
                    e is ValidationError && !run.accepted && final(self).last_result() is None
                }),
            },
    {
        let ghost run = self.run_spec(caller, target, value, data@, gas, gas_price);
        let db = self.build_scratch();
        proof {
            // Every image account carries inline code, so the run is a
            // function of the image map.
            assert forall|a: Address|
                #[trigger] scratch_accounts(db).dom().contains(a) implies scratch_accounts(
                db,
            )[a].info.code is Some by {
                assert(scratch_accounts(db)[a] == scratch_of(self.model().accounts)[a]);
            }
        }
        let tx_gas = match gas {
            Some(g) => g,
            None => self.gas_limit,
        };
        let tx_price = match gas_price {
            Some(p) => p,
            None => 0,
        };
        let tx = engine_tx(&caller, &target, &value, &data, tx_gas, tx_price);
        let block = engine_block(
            &self.env.block.number,
            &self.env.block.coinbase,
            &self.env.block.timestamp,
            self.gas_limit,
            0,
            &self.env.block.difficulty,
            &self.env.block.prevrandao,
        );
        let res = engine_run(db, block, tx, self.spec_id.as_str(), self.env.cfg.chain_id);
        match res {
            Err(msg) => {
                self.result = None;
                Err(EvmError::ValidationError(msg))
            },
            Ok(out) => {
                proof {
                    assert(engine_output_of(out) == run);
                }
                let raw = output_diff(&out);
                let mut diff: Vec<DiffEntry> = Vec::new();
                let n = raw.len();
                let mut i: usize = 0;
                while i < n
                    invariant
                        n == raw@.len(),
                        i <= n,
                        run == engine_output_of(out),
                        diff@.len() == i,
                        forall|i2: int, j2: int|
                            0 <= i2 < j2 < raw@.len() ==> ((#[trigger] raw@[i2]).0, raw@[i2].1)
                                != ((#[trigger] raw@[j2]).0, raw@[j2].1),
                        forall|t: int|
                            0 <= t < raw@.len() ==> run.diff.dom().contains(
                                Address { hi: (#[trigger] raw@[t]).0, lo: raw@[t].1 },
                            ) && run.diff[Address { hi: raw@[t].0, lo: raw@[t].1 }] == acct_model(
                                raw@[t].2,
                            ),
                        forall|t: int|
                            0 <= t < i ==> (#[trigger] diff@[t]).addr == (Address {
                                hi: raw@[t].0,
                                lo: raw@[t].1,
                            }) && entry_matches(diff@[t]@, run.diff[diff@[t].addr]),
                    decreases n - i,
                {
                    let a = Address { hi: raw[i].0, lo: raw[i].1 };
                    diff.push(
                        DiffEntry {
                            addr: a,
                            touched: acct_touched(&raw[i].2),
                            selfdestructed: acct_selfdestructed(&raw[i].2),
                            info: acct_info(&raw[i].2),
                            storage: acct_storage(&raw[i].2),
                        },
                    );
                    i += 1;
                }
                proof {
                    assert(enumerates(diff@.map_values(|e: DiffEntry| e@), run.diff)) by {
                        let models = diff@.map_values(|e: DiffEntry| e@);
                        assert forall|i2: int, j2: int|
                            0 <= i2 < j2 < models.len() implies (#[trigger] models[i2]).addr != (
                        #[trigger] models[j2]).addr by {
                            assert(models[i2].addr == (Address { hi: raw@[i2].0, lo: raw@[i2].1 }));
                            assert(models[j2].addr == (Address { hi: raw@[j2].0, lo: raw@[j2].1 }));
                        }
                        assert forall|t: int|
                            0 <= t < models.len() implies run.diff.dom().contains(
                            (#[trigger] models[t]).addr,
                        ) && entry_matches(models[t], run.diff[models[t].addr]) by {
                            assert(models[t] == diff@[t]@);
                        }
                        assert forall|a: Address|
                            #[trigger] run.diff.dom().contains(a) implies exists|t: int|
                            0 <= t < models.len() && (#[trigger] models[t]).addr == a by {
                            let t = choose|t: int|
                                0 <= t < raw@.len() && a == (Address {
                                    hi: (#[trigger] raw@[t]).0,
                                    lo: raw@[t].1,
                                });
                            assert(models[t].addr == a);
                        }
                    }
                }
                let mut kind = outcome_reason(&out);
                let mut discard = false;
                if is_static && !self.diff_static_ok(&diff, &caller) {
                    kind = ReasonKind::StaticViolation;
                    discard = true;
                }
                proof {
                    let models = diff@.map_values(|e: DiffEntry| e@);
                    // The sequence check and the map check agree over an
                    // enumeration of the diff.
                    assert(Self::diff_static_ok_spec(self.model().accounts, models, caller)
                        == diff_static_ok_map(self.model().accounts, run.diff, caller)) by {
                        if Self::diff_static_ok_spec(self.model().accounts, models, caller) {
                            assert forall|a: Address|
                                #[trigger] run.diff.dom().contains(a) implies cell_static_ok(
                                self.model().accounts,
                                a,
                                run.diff[a],
                                caller,
                            ) by {
                                let t = choose|t: int|
                                    0 <= t < models.len() && (#[trigger] models[t]).addr == a;
                                let c = run.diff[a];
                                if c.touched {
                                    assert(models[t].touched);
                                    assert(models[t].storage.len() == 0);
                                    assert forall|k: Uint256|
                                        !(#[trigger] c.storage.dom().contains(k)) by {
                                        if crate::store::slot_has_key(models[t].storage, k) {
                                            assert(false);
                                        }
                                    }
                                }
                            }
                        }
                        if diff_static_ok_map(self.model().accounts, run.diff, caller) {
                            assert forall|t: int|
                                0 <= t < models.len() implies ((#[trigger] models[t]).touched
                                ==> !models[t].selfdestructed && models[t].storage.len() == 0
                                && models[t].info.balance == map_info_of(
                                self.model().accounts,
                                models[t].addr,
                            ).balance && crate::account::norm_code(models[t].info.code)
                                == crate::account::norm_code(
                                map_info_of(self.model().accounts, models[t].addr).code,
                            ) && models[t].info.code_hash == map_info_of(
                                self.model().accounts,
                                models[t].addr,
                            ).code_hash && (models[t].addr == caller || models[t].info.nonce
                                == map_info_of(self.model().accounts, models[t].addr).nonce)) by {
                                assert(run.diff.dom().contains(models[t].addr));
                                let c = run.diff[models[t].addr];
                                assert(entry_matches(models[t], c));
                                if models[t].touched {
                                    if models[t].storage.len() > 0 {
                                        let k0 = models[t].storage[0].0;
                                        assert(crate::store::slot_has_key(models[t].storage, k0));
                                        assert(crate::store::slots_map(
                                            models[t].storage,
                                        ).dom().contains(k0));
                                        assert(c.storage.dom().contains(k0));
                                        assert(false);
                                    }
                                }
                            }
                        }
                    }
                }
                let gas_used = outcome_gas_used(&out);
                let gas_refunded = outcome_gas_refunded(&out);
                let mut logs: Vec<Log> = Vec::new();
                let lcount = outcome_log_count(&out);
                let mut lj: usize = 0;
                while lj < lcount
                    invariant
                        run == engine_output_of(out),
                        lcount == run.logs.len(),
                        lj <= lcount,
                        logs@.len() == lj,
                        logs@.map_values(|l: Log| l@) =~= run.logs.take(lj as int),
                    decreases lcount - lj,
                {
                    match outcome_log(&out, lj) {
                        Some(l) => {
                            logs.push(l);
                            proof {
                                assert(logs@.map_values(|l2: Log| l2@) =~= run.logs.take(
                                    lj as int + 1,
                                ));
                            }
                        },
                        None => {
                            proof {
                                assert(false);
                            }
                        },
                    }
                    lj += 1;
                }
                proof {
                    assert(run.logs.take(lcount as int) =~= run.logs);
                }
                let output = outcome_output(&out);
                let created = match outcome_created(&out) {
                    Some(p) => Some(Address { hi: p.0, lo: p.1 }),
                    None => None,
                };
                let mut kept_logs: Vec<Log> = Vec::new();
                let ln = logs.len();
                let mut li: usize = 0;
                while li < ln
                    invariant
                        ln == logs@.len(),
                        li <= ln,
                        kept_logs@.len() == li,
                        forall|t: int|
                            0 <= t < li ==> (#[trigger] kept_logs@[t])@ == logs@[t]@,
                    decreases ln - li,
                {
                    kept_logs.push(logs[li].duplicate());
                    li += 1;
                }
                proof {
                    assert(kept_logs@.map_values(|l: Log| l@) =~= logs@.map_values(
                        |l: Log| l@,
                    ));
                }
                let res2 = project_outcome(kind, gas_used, gas_refunded, logs);
                let success = res2.is_success;
                self.result = Some(res2);
                if discard {
                    diff = Vec::new();
                }
                Ok(RunOutput { success, output, created, diff, logs: kept_logs })
            },
        }
    }

    /// A one-shot message call against the current state. Non-mutating:
    /// whatever the engine did internally, the ledger is exactly as it
    /// was; only the kept outcome changes. Returns the output bytes when
    /// the run (after the static policy) succeeded; otherwise the
    /// projected outcome stays readable and `ExecutionFailed` is raised.
    /// The static policy checks the returned diff, not the opcodes the
    /// engine ran: a call that mutates a slot and restores it before
    /// returning passes.
    pub fn message_call(
        &mut self,
        caller: &str,
        to: &str,
        calldata: Option<Vec<u8>>,
        value: Option<Uint256>,
        gas: Option<u64>,
        gas_price: Option<u128>,
        is_static: bool,
    ) -> (r: Result<Vec<u8>, EvmError>)
        requires
            old(self).wf(),
        ensures
            final(self).wf(),
            final(self).model() == old(self).model(),
            final(self).is_remote() == old(self).is_remote(),
            final(self).gas_limit_spec() == old(self).gas_limit_spec(),
            final(self).block_hashes_spec() == old(self).block_hashes_spec(),
            final(self).block_env_spec() == old(self).block_env_spec(),
            final(self).tx_env_spec() == old(self).tx_env_spec(),
            final(self).chain_id_spec() == old(self).chain_id_spec(),
            final(self).spec_name_spec() == old(self).spec_name_spec(),
            final(self).pin_spec() == old(self).pin_spec(),
            final(self).remote_url_spec() == old(self).remote_url_spec(),
            r is Ok ==> valid_address_str(caller@) && valid_address_str(to@) && !old(self).is_remote(),
            r matches Ok(d) ==> ({
                let run = old(self).message_run(caller@, to@, calldata, value, gas, gas_price);
                let eff = effective_reason(
                    old(self).model().accounts,
                    run,
                    spec_address_of(caller@),
                    is_static,
                );
                run.accepted && crate::result::reason_is_success(eff) && d@ == (
                match run.output {
                    Some(b) => b,
                    None => Seq::<u8>::empty(),
                }) && final(self).last_result() == Some(
                    crate::result::projected(eff, run.gas_used, run.gas_refunded, run.logs),
                )
            }),
            r matches Err(e) ==> (e is InvalidArgument || e is RemoteFetchRequired
                || e is ValidationError || e is ExecutionFailed),
            r matches Err(e) && e is InvalidArgument ==> !valid_address_str(caller@)
                || !valid_address_str(to@),
            r matches Err(EvmError::RemoteFetchRequired(k)) ==> valid_address_str(caller@)
                && valid_address_str(to@) && old(self).is_remote() && k == RemoteKey::FullState,
            r matches Err(e) && e is ValidationError ==> valid_address_str(caller@)
                && valid_address_str(to@) && !old(self).is_remote() && !old(self).message_run(
                caller@,
                to@,
                calldata,
                value,
                gas,
                gas_price,
            ).accepted && final(self).last_result() is None,
            r matches Err(e) && e is ExecutionFailed ==> ({
                let run = old(self).message_run(caller@, to@, calldata, value, gas, gas_price);
                let eff = effective_reason(
                    old(self).model().accounts,
                    run,
                    spec_address_of(caller@),
                    is_static,
                );
                valid_address_str(caller@) && valid_address_str(to@) && !old(self).is_remote()
                    && run.accepted && !crate::result::reason_is_success(eff) && final(self).last_result() == Some(
                    crate::result::projected(eff, run.gas_used, run.gas_refunded, run.logs),
                )
            }),
    {
        let ghost run = self.message_run(caller@, to@, calldata, value, gas, gas_price);
        let caller_a = match parse_address(caller) {
            Ok(a) => a,
            Err(e) => {
                return Err(e);
            },
        };
        let to_a = match parse_address(to) {
            Ok(a) => a,
            Err(e) => {
                return Err(e);
            },
        };
        if self.remote.is_some() {
            return Err(EvmError::RemoteFetchRequired(RemoteKey::FullState));
        }
        let data = match calldata {
            Some(d) => d,
            None => Vec::new(),
        };
        let v = match value {
            Some(v) => v,
            None => Uint256::zero(),
        };
        proof {
            if data@.len() == 0 {
                assert(data@ =~= Seq::<u8>::empty());
            }
            assert(run == self.run_spec(caller_a, Some(to_a), v, data@, gas, gas_price));
        }
        let out = match self.run_local(caller_a, Some(to_a), data, v, gas, gas_price, is_static) {
            Ok(o) => o,
            Err(e) => {
                return Err(e);
            },
        };
        if out.success {
            match out.output {
                Some(d) => Ok(d),
                None => {
                    let empty_out: Vec<u8> = Vec::new();
                    proof {
                        assert(empty_out@ =~= Seq::<u8>::empty());
                    }
                    Ok(empty_out)
                },
            }
        } else {
            Err(EvmError::ExecutionFailed(String::from_str("call did not succeed")))
        }
    }

    /// The committing variant of a message call: on success, the returned
    /// state diff and the emitted logs are applied to the ledger through
    /// the journal, so an outer checkpoint can still roll them back. The
    /// final ledger is exactly the run's diff applied and its logs
    /// appended.
    #[verifier::rlimit(60)]
    pub fn message_call_commit(
        &mut self,
        caller: &str,
        to: &str,
        calldata: Option<Vec<u8>>,
        value: Option<Uint256>,
        gas: Option<u64>,
        gas_price: Option<u128>,
    ) -> (r: Result<Vec<u8>, EvmError>)
        requires
            old(self).wf(),
        ensures
            final(self).wf(),
            final(self).model().checkpoints == old(self).model().checkpoints,
            final(self).is_remote() == old(self).is_remote(),
            final(self).gas_limit_spec() == old(self).gas_limit_spec(),
            final(self).block_hashes_spec() == old(self).block_hashes_spec(),
            final(self).block_env_spec() == old(self).block_env_spec(),
            final(self).tx_env_spec() == old(self).tx_env_spec(),
            final(self).chain_id_spec() == old(self).chain_id_spec(),
            final(self).spec_name_spec() == old(self).spec_name_spec(),
            final(self).pin_spec() == old(self).pin_spec(),
            final(self).remote_url_spec() == old(self).remote_url_spec(),
            r is Ok ==> valid_address_str(caller@) && valid_address_str(to@) && !old(self).is_remote(),
            r matches Ok(d) ==> ({
                let run = old(self).message_run(caller@, to@, calldata, value, gas, gas_price);
                run.accepted && crate::result::reason_is_success(run.reason) && d@ == (
                match run.output {
                    Some(b) => b,
                    None => Seq::<u8>::empty(),
                }) && final(self).last_result() == Some(
                    crate::result::projected(run.reason, run.gas_used, run.gas_refunded, run.logs),
                )
            }),
            r is Ok ==> commits_run(
                old(self).model(),
                final(self).model(),
                old(self).message_run(caller@, to@, calldata, value, gas, gas_price),
            ),
            r is Err ==> final(self).model() == old(self).model(),
            r matches Err(e) ==> (e is InvalidArgument || e is RemoteFetchRequired
                || e is ValidationError || e is ExecutionFailed),
            r matches Err(e) && e is InvalidArgument ==> !valid_address_str(caller@)
                || !valid_address_str(to@),
            r matches Err(EvmError::RemoteFetchRequired(k)) ==> valid_address_str(caller@)
                && valid_address_str(to@) && old(self).is_remote() && k == RemoteKey::FullState,
            r matches Err(e) && e is ValidationError ==> valid_address_str(caller@)
                && valid_address_str(to@) && !old(self).is_remote() && !old(self).message_run(
                caller@,
                to@,
                calldata,
                value,
                gas,
                gas_price,
            ).accepted && final(self).last_result() is None,
            r matches Err(e) && e is ExecutionFailed ==> ({
                let run = old(self).message_run(caller@, to@, calldata, value, gas, gas_price);
                valid_address_str(caller@) && valid_address_str(to@) && !old(self).is_remote()
                    && run.accepted && !crate::result::reason_is_success(run.reason) && final(self).last_result() == Some(
                    crate::result::projected(run.reason, run.gas_used, run.gas_refunded, run.logs),
                )
            }),
    {
        let ghost run = self.message_run(caller@, to@, calldata, value, gas, gas_price);
        let caller_a = match parse_address(caller) {
            Ok(a) => a,
            Err(e) => {
                return Err(e);
            },
        };
        let to_a = match parse_address(to) {
            Ok(a) => a,
            Err(e) => {
                return Err(e);
            },
        };
        if self.remote.is_some() {
            return Err(EvmError::RemoteFetchRequired(RemoteKey::FullState));
        }
        let data = match calldata {
            Some(d) => d,
            None => Vec::new(),
        };
        let v = match value {
            Some(v) => v,
            None => Uint256::zero(),
        };
        proof {
            if data@.len() == 0 {
                assert(data@ =~= Seq::<u8>::empty());
            }
            assert(run == self.run_spec(caller_a, Some(to_a), v, data@, gas, gas_price));
        }
        let out = match self.run_local(caller_a, Some(to_a), data, v, gas, gas_price, false) {
            Ok(o) => o,
            Err(e) => {
                return Err(e);
            },
        };
        if out.success {
            let ghost models = out.diff@.map_values(|e: DiffEntry| e@);
            proof {
                assert(effective_reason(old(self).model().accounts, run, caller_a, false)
                    == run.reason);
                assert(enumerates(models, run.diff));
            }
            self.commit_diff(&out.diff);
            proof {
                crate::journal::lemma_apply_writes_keeps(old(self).model(), diff_ops(models));
            }
            self.append_logs(&out.logs);
            proof {
                assert(out.logs@.map_values(|l: Log| l@) == run.logs);
                assert(commits_run(old(self).model(), self.model(), run)) by {
                    assert(enumerates(models, run.diff) && self.model()
                        == crate::journal::append_logs_step(
                        apply_writes(old(self).model(), diff_ops(models)),
                        run.logs,
                    ));
                }
            }
            match out.output {
                Some(d) => Ok(d),
                None => {
                    let empty_out: Vec<u8> = Vec::new();
                    proof {
                        assert(empty_out@ =~= Seq::<u8>::empty());
                    }
                    Ok(empty_out)
                },
            }
        } else {
            Err(EvmError::ExecutionFailed(String::from_str("call did not succeed")))
        }
    }

    /// Deploys a contract: a creation transaction whose diff and logs are
    /// committed on success, journaled like any other write. Returns the
    /// run's created address as its hex string; the final ledger is
    /// exactly the run's diff applied and its logs appended. The engine's
    /// transaction kinds offer no salted creation, so the address is a
    /// function of the deployer and its nonce.
    #[verifier::rlimit(60)]
    pub fn deploy(
        &mut self,
        deployer: &str,
        code: Vec<u8>,
        value: Option<Uint256>,
        gas: Option<u64>,
        gas_price: Option<u128>,
        is_static: bool,
    ) -> (r: Result<String, EvmError>)
        requires
            old(self).wf(),
        ensures
            final(self).wf(),
            final(self).model().checkpoints == old(self).model().checkpoints,
            final(self).is_remote() == old(self).is_remote(),
            final(self).gas_limit_spec() == old(self).gas_limit_spec(),
            final(self).block_hashes_spec() == old(self).block_hashes_spec(),
            final(self).block_env_spec() == old(self).block_env_spec(),
            final(self).tx_env_spec() == old(self).tx_env_spec(),
            final(self).chain_id_spec() == old(self).chain_id_spec(),
            final(self).spec_name_spec() == old(self).spec_name_spec(),
            final(self).pin_spec() == old(self).pin_spec(),
            final(self).remote_url_spec() == old(self).remote_url_spec(),
            r is Ok ==> valid_address_str(deployer@) && !old(self).is_remote(),
            r matches Ok(s2) ==> ({
                let run = old(self).create_run(deployer@, code@, value, gas, gas_price);
                let eff = effective_reason(
                    old(self).model().accounts,
                    run,
                    spec_address_of(deployer@),
                    is_static,
                );
                run.accepted && crate::result::reason_is_success(eff) && (run.created matches Some(
                    ca,
                ) && s2@ == address_hex(ca)) && final(self).last_result() == Some(
                    crate::result::projected(eff, run.gas_used, run.gas_refunded, run.logs),
                )
            }),
            r is Ok ==> commits_run(
                old(self).model(),
                final(self).model(),
                old(self).create_run(deployer@, code@, value, gas, gas_price),
            ),
            r is Err ==> final(self).model() == old(self).model(),
            r matches Err(e) ==> (e is InvalidArgument || e is RemoteFetchRequired
                || e is ValidationError || e is ExecutionFailed),
            r matches Err(e) && e is InvalidArgument ==> !valid_address_str(deployer@),
            r matches Err(EvmError::RemoteFetchRequired(k)) ==> valid_address_str(deployer@)
                && old(self).is_remote() && k == RemoteKey::FullState,
            r matches Err(e) && e is ValidationError ==> valid_address_str(deployer@) && !old(self).is_remote() && !old(self).create_run(deployer@, code@, value, gas, gas_price).accepted
                && final(self).last_result() is None,
            r matches Err(e) && e is ExecutionFailed ==> ({
                let run = old(self).create_run(deployer@, code@, value, gas, gas_price);
                let eff = effective_reason(
                    old(self).model().accounts,
                    run,
                    spec_address_of(deployer@),
                    is_static,
                );
                valid_address_str(deployer@) && !old(self).is_remote() && run.accepted && (
                !crate::result::reason_is_success(eff) || run.created is None) && final(self).last_result() == Some(
                    crate::result::projected(eff, run.gas_used, run.gas_refunded, run.logs),
                )
            }),
    {
        let ghost run = self.create_run(deployer@, code@, value, gas, gas_price);
        let deployer_a = match parse_address(deployer) {
            Ok(a) => a,
            Err(e) => {
                return Err(e);
            },
        };
        if self.remote.is_some() {
            return Err(EvmError::RemoteFetchRequired(RemoteKey::FullState));
        }
        let v = match value {
            Some(v) => v,
            None => Uint256::zero(),
        };
        proof {
            assert(run == self.run_spec(deployer_a, None, v, code@, gas, gas_price));
        }
        let out = match self.run_local(deployer_a, None, code, v, gas, gas_price, is_static) {
            Ok(o) => o,
            Err(e) => {
                return Err(e);
            },
        };
        if !out.success {
            return Err(EvmError::ExecutionFailed(String::from_str("deployment did not succeed")));
        }
        match out.created {
            Some(a) => {
                let ghost models = out.diff@.map_values(|e: DiffEntry| e@);
                proof {
                    let eff = effective_reason(
                        old(self).model().accounts,
                        run,
                        deployer_a,
                        is_static,
                    );
                    // A successful outcome rules the static discard out,
                    // so the diff enumerates the run's diff map.
                    if is_static && !diff_static_ok_map(
                        old(self).model().accounts,
                        run.diff,
                        deployer_a,
                    ) {
                        assert(eff == ReasonKind::StaticViolation);
                        assert(!out.success);
                        assert(false);
                    }
                    assert(enumerates(models, run.diff));
                }
                self.commit_diff(&out.diff);
                proof {
                    crate::journal::lemma_apply_writes_keeps(old(self).model(), diff_ops(models));
                }
                self.append_logs(&out.logs);
                proof {
                    assert(commits_run(old(self).model(), self.model(), run)) by {
                        assert(enumerates(models, run.diff) && self.model()
                            == crate::journal::append_logs_step(
                            apply_writes(old(self).model(), diff_ops(models)),
                            run.logs,
                        ));
                    }
                }
                Ok(format_address(&a))
            },
            None => Err(
                EvmError::ExecutionFailed(String::from_str("deployment returned no address")),
            ),
        }
    }

    /// Caches a block hash answered by the remote source. The cache is
    /// keyed uniquely: a number that already has an entry keeps it, so
    /// every later read of that number returns the first answer.
    pub fn install_block_hash(&mut self, number: u64, hash: Hash256)
        requires
            old(self).wf(),
        ensures
            final(self).wf(),
            final(self).model() == old(self).model(),
            final(self).is_remote() == old(self).is_remote(),
            final(self).gas_limit_spec() == old(self).gas_limit_spec(),
            bh_first(final(self).block_hashes_spec(), number) == (match bh_first(
                old(self).block_hashes_spec(),
                number,
            ) {
                Some(h0) => Some(h0),
                None => Some(hash),
            }),
            forall|m: u64|
                m != number ==> #[trigger] bh_first(final(self).block_hashes_spec(), m) == bh_first(
                    old(self).block_hashes_spec(),
                    m,
                ),
    {
        let n = self.block_hashes.len();
        let mut i: usize = 0;
        while i < n
            invariant
                *self == *old(self),
                self.wf(),
                n == self.block_hashes@.len(),
                i <= n,
                forall|j: int| 0 <= j < i ==> (#[trigger] self.block_hashes@[j]).0 != number,
            decreases n - i,
        {
            if self.block_hashes[i].0 == number {
                proof {
                    lemma_bh_first_at(self.block_hashes@, number, i as int);
                }
                return ;
            }
            i += 1;
        }
        proof {
            lemma_bh_first_none(self.block_hashes@, number);
            lemma_bh_first_push(self.block_hashes@, (number, hash), number);
            assert forall|m: u64|
                m != number implies #[trigger] bh_first(
                self.block_hashes@.push((number, hash)),
                m,
            ) == bh_first(self.block_hashes@, m) by {
                lemma_bh_first_push(self.block_hashes@, (number, hash), m);
            }
        }
        self.block_hashes.push((number, hash));
    }
}

} // verus!
