//! The trusted edge to the revm engine: type declarations for the handful of
//! engine values that cross into verified code, and small wrappers whose
//! bodies only call the engine and convert values one for one.
use vstd::prelude::*;

use revm::context::result::{ExecutionResult as EngineResult, HaltReason as EngineHalt, SuccessReason as EngineSuccess};
use revm::{ExecuteEvm, MainBuilder, MainContext};

use crate::account::{AccountInfo, InfoModel};
use crate::journal::LogModel;
use crate::store::slots_map;
use crate::values::{Address, Hash256, Uint256};

verus! {

/// What the keccak-256 digest of a byte sequence is. The digest depends on
/// the bytes alone; nothing here states which digest it is.
pub uninterp spec fn keccak_of(bytes: Seq<u8>) -> Hash256;

/// Relies on revm::primitives::keccak256: the 32-byte keccak digest of the
/// input, a function of the input bytes alone.
#[verifier::external_body]
pub(crate) fn keccak_bytes(bytes: &Vec<u8>) -> (r: Hash256)
    ensures
        r == keccak_of(bytes@),
{
    let d = revm::primitives::keccak256(bytes.as_slice());
    Hash256 {
        hi: u128::from_be_bytes(d.0[0..16].try_into().unwrap()),
        lo: u128::from_be_bytes(d.0[16..32].try_into().unwrap()),
    }
}

#[verifier::external_type_specification]
#[verifier::external_body]
#[verifier::reject_recursive_types(ExtDB)]
pub struct ExCacheDB<ExtDB>(revm::database::CacheDB<ExtDB>);

#[verifier::external_type_specification]
#[verifier::external_body]
#[verifier::reject_recursive_types(E)]
pub struct ExEmptyDBTyped<E>(revm::database_interface::EmptyDBTyped<E>);

/// An opaque carrier for the engine's transaction environment.
#[verifier::external_body]
pub struct EngineTx {
    inner: revm::context::TxEnv,
}

/// An opaque carrier for the engine's block environment.
#[verifier::external_body]
pub struct EngineBlock {
    inner: revm::context::BlockEnv,
}

#[verifier::external_type_specification]
#[verifier::external_body]
pub struct ExAccount(revm::state::Account);

/// An opaque carrier for an engine address value.
#[verifier::external_body]
pub struct EngineAddr {
    inner: revm::primitives::Address,
}

/// An opaque carrier for an engine 256-bit word.
#[verifier::external_body]
pub struct EngineWord {
    inner: revm::primitives::U256,
}

/// An opaque carrier for an engine 32-byte value.
#[verifier::external_body]
pub struct EngineHash {
    inner: revm::primitives::B256,
}

/// Relies on Address::from over the big-endian bytes of the two halves.
#[verifier::external_body]
fn addr20(a: &Address) -> (r: EngineAddr) {
    let mut b = [0u8; 20];
    b[0..4].copy_from_slice(&a.hi.to_be_bytes());
    b[4..20].copy_from_slice(&a.lo.to_be_bytes());
    EngineAddr { inner: revm::primitives::Address::from(b) }
}

/// Relies on U256::from_limbs.
#[verifier::external_body]
fn word256(v: &Uint256) -> (r: EngineWord) {
    EngineWord { inner: revm::primitives::U256::from_limbs([v.l0, v.l1, v.l2, v.l3]) }
}

/// Relies on B256::from over the big-endian bytes of the two halves.
#[verifier::external_body]
fn hash32(h: &Hash256) -> (r: EngineHash) {
    let mut b = [0u8; 32];
    b[0..16].copy_from_slice(&h.hi.to_be_bytes());
    b[16..32].copy_from_slice(&h.lo.to_be_bytes());
    EngineHash { inner: revm::primitives::B256::from(b) }
}

/// What one account of the engine's scratch database holds.
pub struct ScratchCell {
    pub info: crate::account::InfoModel,
    pub storage: Map<Uint256, Uint256>,
}

/// What the engine's scratch database holds, account by account.
pub uninterp spec fn scratch_accounts(
    db: revm::database::CacheDB<revm::database_interface::EmptyDB>,
) -> Map<Address, ScratchCell>;

/// Relies on revm::database::CacheDB::new over an empty backing database:
/// a fresh cache holds no accounts.
#[verifier::external_body]
pub(crate) fn scratch_new() -> (db: revm::database::CacheDB<revm::database_interface::EmptyDB>)
    ensures
        scratch_accounts(db).dom() == Set::<Address>::empty(),
{
    revm::database::CacheDB::new(revm::database_interface::EmptyDB::new())
}

/// The code-hash rewriting the cache applies on insertion: an account
/// with non-empty code whose hash is the empty-code digest gets the
/// digest of its code instead, and an all-zero hash becomes the
/// empty-code digest.
pub open spec fn scratch_info_norm(i: InfoModel) -> InfoModel {
    let h1 = match i.code {
        Some(c) => if c.len() > 0 && i.code_hash == keccak_of(Seq::<u8>::empty()) {
            keccak_of(c)
        } else {
            i.code_hash
        },
        None => i.code_hash,
    };
    let h2 = if h1 == (Hash256 { hi: 0, lo: 0 }) {
        keccak_of(Seq::<u8>::empty())
    } else {
        h1
    };
    InfoModel { code_hash: h2, ..i }
}

/// Relies on revm::database::CacheDB::insert_account_info: the account is
/// entered into the cache under its address, with no storage yet. The
/// cache's own insert_contract rewrites the code hash on two inputs —
/// stated by `scratch_info_norm`. The code must be inline (`Some`), so
/// that the engine reads it from the account itself and never consults
/// the cache's hash-keyed code table, whose content depends on insertion
/// order rather than on the account map.
#[verifier::external_body]
pub(crate) fn scratch_insert_info(
    db: &mut revm::database::CacheDB<revm::database_interface::EmptyDB>,
    addr: &Address,
    info: &AccountInfo,
)
    requires
        !scratch_accounts(*old(db)).dom().contains(*addr),
        info.code is Some,
    ensures
        scratch_accounts(*final(db)) == scratch_accounts(*old(db)).insert(
            *addr,
            ScratchCell { info: scratch_info_norm(info@), storage: Map::empty() },
        ),
{
    let code = revm::bytecode::Bytecode::new_legacy(match info.code.as_ref() {
        Some(c) => c.clone().into(),
        None => revm::primitives::Bytes::new(),
    });
    let converted = revm::state::AccountInfo {
        balance: word256(&info.balance).inner,
        nonce: info.nonce,
        code_hash: hash32(&info.code_hash).inner,
        code: Some(code),
        ..Default::default()
    };
    db.insert_account_info(addr20(addr).inner, converted);
}

/// Relies on revm::database::CacheDB::insert_account_storage: the slot is
/// entered into the cached account's storage.
#[verifier::external_body]
pub(crate) fn scratch_insert_slot(
    db: &mut revm::database::CacheDB<revm::database_interface::EmptyDB>,
    addr: &Address,
    key: &Uint256,
    value: &Uint256,
)
    requires
        scratch_accounts(*old(db)).dom().contains(*addr),
    ensures
        scratch_accounts(*final(db)) == scratch_accounts(*old(db)).insert(
            *addr,
            ScratchCell {
                info: scratch_accounts(*old(db))[*addr].info,
                storage: scratch_accounts(*old(db))[*addr].storage.insert(*key, *value),
            },
        ),
{
    let _ = db.insert_account_storage(
        addr20(addr).inner,
        word256(key).inner,
        word256(value).inner,
    );
}

/// The plain content of an engine transaction environment.
pub struct TxParams {
    pub caller: Address,
    pub target: Option<Address>,
    pub value: Uint256,
    pub data: Seq<u8>,
    pub gas_limit: u64,
    pub gas_price: u128,
}

/// What a carried transaction environment holds.
pub uninterp spec fn tx_params(tx: EngineTx) -> TxParams;

/// The plain content of an engine block environment.
pub struct BlockParams {
    pub number: Uint256,
    pub beneficiary: Address,
    pub timestamp: Uint256,
    pub gas_limit: u64,
    pub basefee: u64,
    pub difficulty: Uint256,
    pub prevrandao: Hash256,
}

/// What a carried block environment holds.
pub uninterp spec fn block_params(b: EngineBlock) -> BlockParams;

/// Relies on revm::context::TxEnv: a legacy transaction environment
/// holding exactly the given plain fields (target absent means contract
/// creation), with the engine's defaults for the rest — except that the
/// transaction carries no chain id, as a legacy transaction may, so the
/// configured chain id governs whatever its value is and the chain-id
/// check never rejects a simulated call.
#[verifier::external_body]
pub(crate) fn engine_tx(
    caller: &Address,
    target: &Option<Address>,
    value: &Uint256,
    data: &Vec<u8>,
    gas_limit: u64,
    gas_price: u128,
) -> (tx: EngineTx)
    ensures
        tx_params(tx) == (TxParams {
            caller: *caller,
            target: *target,
            value: *value,
            data: data@,
            gas_limit,
            gas_price,
        }),
{
    let kind = match target {
        Some(t) => revm::primitives::TxKind::Call(addr20(t).inner),
        None => revm::primitives::TxKind::Create,
    };
    let base = revm::context::TxEnv { gas_limit, gas_price, chain_id: None, ..Default::default() };
    EngineTx {
        inner: revm::context::TxEnv {
            caller: addr20(caller).inner,
            kind,
            value: word256(value).inner,
            data: data.clone().into(),
            ..base
        },
    }
}

/// Relies on revm::context::BlockEnv: a block environment holding exactly
/// the given plain fields, with the engine's defaults for the rest.
#[verifier::external_body]
pub(crate) fn engine_block(
    number: &Uint256,
    beneficiary: &Address,
    timestamp: &Uint256,
    gas_limit: u64,
    basefee: u64,
    difficulty: &Uint256,
    prevrandao: &Hash256,
) -> (b: EngineBlock)
    ensures
        block_params(b) == (BlockParams {
            number: *number,
            beneficiary: *beneficiary,
            timestamp: *timestamp,
            gas_limit,
            basefee,
            difficulty: *difficulty,
            prevrandao: *prevrandao,
        }),
{
    EngineBlock {
        inner: revm::context::BlockEnv {
            number: word256(number).inner,
            beneficiary: addr20(beneficiary).inner,
            timestamp: word256(timestamp).inner,
            gas_limit,
            basefee,
            difficulty: word256(difficulty).inner,
            prevrandao: Some(hash32(prevrandao).inner),
            ..Default::default()
        },
    }
}

/// An opaque carrier for one finished engine run: the outcome and the
/// state diff.
#[verifier::external_body]
pub struct EngineOutput {
    result: EngineResult<EngineHalt>,
    state: revm::state::EvmState,
}

/// The plain content of one changed account in a run's state diff.
pub struct DiffCell {
    pub touched: bool,
    pub selfdestructed: bool,
    pub info: InfoModel,
    pub storage: Map<Uint256, Uint256>,
}

/// The plain content of one finished engine run: whether the engine
/// accepted the transaction, and if so the projected reason tag, the
/// receipt gas, the final refund, the output bytes, the created address,
/// the logs in emission order, and the state diff keyed by address.
pub struct RunModel {
    pub accepted: bool,
    pub reason: ReasonKind,
    pub gas_used: u64,
    pub gas_refunded: u64,
    pub output: Option<Seq<u8>>,
    pub created: Option<Address>,
    pub logs: Seq<LogModel>,
    pub diff: Map<Address, DiffCell>,
}

/// What one engine run produces, as a function of the scratch image, the
/// transaction and block parameters, the hardfork name and the chain id
/// alone. The engine is deterministic over these only when every image
/// account carries inline code — then execution never consults the
/// cache's hash-keyed code table, whose content depends on insertion
/// order rather than on the map — and otherwise reads only the image,
/// the environment, and the empty backing database, whose block hashes
/// are functions of the block number. `engine_run` requires exactly
/// that.
pub uninterp spec fn run_of(
    image: Map<Address, ScratchCell>,
    tx: TxParams,
    block: BlockParams,
    spec_name: Seq<char>,
    chain_id: u64,
) -> RunModel;

/// What a carried engine run holds, read as plain values.
pub uninterp spec fn engine_output_of(o: EngineOutput) -> RunModel;

/// Relies on revm's mainnet EVM: the transaction is executed against the
/// scratch database under the given block and configuration, with the
/// nonce check disabled as a simulation harness wants. The result is
/// `run_of` over the call's plain content: `Ok` exactly when the engine
/// accepts the transaction, `Err` carrying its rendered pre-execution
/// rejection. Unknown hardfork names select the engine's default (the
/// newest fork), matching the harness's pass-through default.
#[verifier::external_body]
pub(crate) fn engine_run(
    db: revm::database::CacheDB<revm::database_interface::EmptyDB>,
    block: EngineBlock,
    tx: EngineTx,
    spec_name: &str,
    chain_id: u64,
) -> (r: Result<EngineOutput, String>)
    requires
        forall|a: Address|
            #[trigger] scratch_accounts(db).dom().contains(a) ==> scratch_accounts(
                db,
            )[a].info.code is Some,
    ensures
        (r is Ok) == run_of(
            scratch_accounts(db),
            tx_params(tx),
            block_params(block),
            spec_name@,
            chain_id,
        ).accepted,
        r matches Ok(out) ==> engine_output_of(out) == run_of(
            scratch_accounts(db),
            tx_params(tx),
            block_params(block),
            spec_name@,
            chain_id,
        ),
{
    let mut cfg = revm::context::CfgEnv::new_with_spec(
        spec_name.parse::<revm::primitives::hardfork::SpecId>().unwrap_or_default(),
    );
    cfg.chain_id = chain_id;
    cfg.disable_nonce_check = true;
    let ctx = revm::Context::mainnet().with_db(db).with_block(block.inner).with_cfg(cfg);
    match ctx.build_mainnet().transact(tx.inner) {
        Ok(out) => Ok(EngineOutput { result: out.result, state: out.state }),
        Err(e) => Err(format!("{:?}", e)),
    }
}

/// Relies on the run's state map: each changed account keyed by the big-
/// endian halves of its 20 address bytes. The entries enumerate the run's
/// diff map: keys pairwise distinct (they are the keys of the engine's
/// state map), every entry in the map, and every key of the map among the
/// entries.
#[verifier::external_body]
pub(crate) fn output_diff(o: &EngineOutput) -> (d: Vec<(u32, u128, revm::state::Account)>)
    ensures
        forall|i: int, j: int|
            0 <= i < j < d@.len() ==> (d@[i].0, d@[i].1) != (d@[j].0, d@[j].1),
        forall|i: int|
            0 <= i < d@.len() ==> engine_output_of(*o).diff.dom().contains(
                Address { hi: (#[trigger] d@[i]).0, lo: d@[i].1 },
            ) && engine_output_of(*o).diff[Address { hi: d@[i].0, lo: d@[i].1 }] == acct_model(
                d@[i].2,
            ),
        forall|a: Address|
            #[trigger] engine_output_of(*o).diff.dom().contains(a) ==> exists|i: int|
                0 <= i < d@.len() && a == (Address { hi: (#[trigger] d@[i]).0, lo: d@[i].1 }),
{
    o.state.iter().map(
        |(a, c)|
            (
                u32::from_be_bytes(a.0[0..4].try_into().unwrap()),
                u128::from_be_bytes(a.0[4..20].try_into().unwrap()),
                c.clone(),
            ),
    ).collect()
}

/// The stable reason vocabulary that outcomes are projected onto;
/// engine-internal reasons outside it project to `Unknown`.
#[derive(Debug, Clone, Copy, PartialEq, Eq, Structural)]
pub enum ReasonKind {
    Stop,
    Return,
    SelfDestruct,
    Revert,
    OutOfGas,
    InvalidJump,
    StackOverflow,
    StackUnderflow,
    OpcodeNotFound,
    CreateCollision,
    CallTooDeep,
    /// The simulator's own static-call policy: the call was declared
    /// static but its diff held a state change.
    StaticViolation,
    Unknown,
}

/// Relies on revm's ExecutionResult and its reason enums: each engine
/// reason is told apart and projected onto the stable vocabulary.
#[verifier::external_body]
pub(crate) fn outcome_reason(r: &EngineOutput) -> (k: ReasonKind)
    ensures
        k == engine_output_of(*r).reason,
{
    match &r.result {
        EngineResult::Success { reason: EngineSuccess::Stop, .. } => ReasonKind::Stop,
        EngineResult::Success { reason: EngineSuccess::Return, .. } => ReasonKind::Return,
        EngineResult::Success { reason: EngineSuccess::SelfDestruct, .. } => ReasonKind::SelfDestruct,
        EngineResult::Revert { .. } => ReasonKind::Revert,
        EngineResult::Halt { .. } => halt_reason(r),
    }
}

/// Relies on revm's HaltReason: each named halt is told apart; any other
/// halt, present or future, projects to `Unknown`.
#[verifier::external_body]
fn halt_reason(r: &EngineOutput) -> (k: ReasonKind) {
    match &r.result {
        EngineResult::Halt { reason: EngineHalt::OutOfGas(_), .. } => ReasonKind::OutOfGas,
        EngineResult::Halt { reason: EngineHalt::InvalidJump, .. } => ReasonKind::InvalidJump,
        EngineResult::Halt { reason: EngineHalt::StackOverflow, .. } => ReasonKind::StackOverflow,
        EngineResult::Halt { reason: EngineHalt::StackUnderflow, .. } => ReasonKind::StackUnderflow,
        EngineResult::Halt { reason: EngineHalt::OpcodeNotFound, .. } => ReasonKind::OpcodeNotFound,
        EngineResult::Halt { reason: EngineHalt::CreateCollision, .. } => ReasonKind::CreateCollision,
        EngineResult::Halt { reason: EngineHalt::CallTooDeep, .. } => ReasonKind::CallTooDeep,
        _ => ReasonKind::Unknown,
    }
}

/// Relies on ResultGas::tx_gas_used through ExecutionResult::gas.
#[verifier::external_body]
pub(crate) fn outcome_gas_used(r: &EngineOutput) -> (g: u64)
    ensures
        g == engine_output_of(*r).gas_used,
{
    r.result.gas().tx_gas_used()
}

/// Relies on ResultGas::final_refunded through ExecutionResult::gas.
#[verifier::external_body]
pub(crate) fn outcome_gas_refunded(r: &EngineOutput) -> (g: u64)
    ensures
        g == engine_output_of(*r).gas_refunded,
{
    r.result.gas().final_refunded()
}

/// Relies on ExecutionResult::output: the output bytes of a success or
/// revert, `None` for a halt.
#[verifier::external_body]
pub(crate) fn outcome_output(r: &EngineOutput) -> (o: Option<Vec<u8>>)
    ensures
        match o {
            Some(v) => engine_output_of(*r).output == Some(v@),
            None => engine_output_of(*r).output is None,
        },
{
    r.result.output().map(|b| b.to_vec())
}

/// Relies on ExecutionResult::created_address, handed out as the big-
/// endian halves of the 20 address bytes.
#[verifier::external_body]
pub(crate) fn outcome_created(r: &EngineOutput) -> (o: Option<(u32, u128)>)
    ensures
        match o {
            Some(p) => engine_output_of(*r).created == Some(Address { hi: p.0, lo: p.1 }),
            None => engine_output_of(*r).created is None,
        },
{
    r.result.created_address().map(
        |a|
            (
                u32::from_be_bytes(a.0[0..4].try_into().unwrap()),
                u128::from_be_bytes(a.0[4..20].try_into().unwrap()),
            ),
    )
}

/// Relies on ExecutionResult::logs: how many logs the outcome carries.
#[verifier::external_body]
pub(crate) fn outcome_log_count(r: &EngineOutput) -> (n: usize)
    ensures
        n == engine_output_of(*r).logs.len(),
{
    r.result.logs().len()
}

/// Relies on ExecutionResult::logs and the alloy log layout: the log at a
/// position, converted to the library's plain record; `None` past the end.
#[verifier::external_body]
pub(crate) fn outcome_log(r: &EngineOutput, i: usize) -> (l: Option<crate::journal::Log>)
    ensures
        match l {
            Some(log) => i < engine_output_of(*r).logs.len() && log@ == engine_output_of(
                *r,
            ).logs[i as int],
            None => i >= engine_output_of(*r).logs.len(),
        },
{
    r.result.logs().get(i).map(
        |l|
            crate::journal::Log {
                address: Address {
                    hi: u32::from_be_bytes(l.address.0[0..4].try_into().unwrap()),
                    lo: u128::from_be_bytes(l.address.0[4..20].try_into().unwrap()),
                },
                topics: l.topics().iter().map(|t| hash_halves(t.0)).collect(),
                data: l.data.data.to_vec(),
            },
    )
}

/// Relies on the byte layout of a 32-byte value: its big-endian halves.
#[verifier::external_body]
fn hash_halves(b: [u8; 32]) -> (h: Hash256) {
    Hash256 {
        hi: u128::from_be_bytes(b[0..16].try_into().unwrap()),
        lo: u128::from_be_bytes(b[16..32].try_into().unwrap()),
    }
}

/// What one engine account value holds, read as plain values: the touch
/// and self-destruct flags, its info, and its written slots as a map.
pub uninterp spec fn acct_model(a: revm::state::Account) -> DiffCell;

/// Relies on Account::is_selfdestructed.
#[verifier::external_body]
pub(crate) fn acct_selfdestructed(a: &revm::state::Account) -> (b: bool)
    ensures
        b == acct_model(*a).selfdestructed,
{
    a.is_selfdestructed()
}

/// Relies on Account::is_touched.
#[verifier::external_body]
pub(crate) fn acct_touched(a: &revm::state::Account) -> (b: bool)
    ensures
        b == acct_model(*a).touched,
{
    a.is_touched()
}

/// Relies on the Account::info field: balance as limbs, nonce, code hash
/// halves, and the code bytes when present.
#[verifier::external_body]
pub(crate) fn acct_info(a: &revm::state::Account) -> (info: AccountInfo)
    ensures
        info@ == acct_model(*a).info,
{
    let l = a.info.balance.as_limbs();
    AccountInfo {
        balance: Uint256 { l0: l[0], l1: l[1], l2: l[2], l3: l[3] },
        nonce: a.info.nonce,
        code: a.info.code.as_ref().map(|c| c.original_byte_slice().to_vec()),
        code_hash: hash_halves(a.info.code_hash.0),
    }
}

/// Relies on the Account::storage map: the written slots as key/present-
/// value pairs. The keys are pairwise distinct (they are the keys of the
/// engine's storage map) and the pairs, read as a map, are the account's
/// written slots.
#[verifier::external_body]
pub(crate) fn acct_storage(a: &revm::state::Account) -> (slots: Vec<(Uint256, Uint256)>)
    ensures
        forall|i: int, j: int| 0 <= i < j < slots@.len() ==> slots@[i].0 != slots@[j].0,
        slots_map(slots@) == acct_model(*a).storage,
{
    a.storage.iter().map(
        |(k, v)| (Uint256::from_limbs(*k.as_limbs()), Uint256::from_limbs(*v.present_value.as_limbs())),
    ).collect()
}

/// What the engine's blob-fee approximation returns: a function of the
/// three arguments alone.
pub uninterp spec fn fake_exp_of(factor: u64, numerator: u64, denominator: u64) -> u128;

/// Relies on revm's fake_exponential (the EIP-4844 Taylor-series
/// approximation of `factor * e^(numerator/denominator)`). Its loop keeps
/// an accumulator near `factor * denominator * e^(numerator/denominator)`
/// and multiplies it by `numerator` each round; under these bounds that
/// product stays below `2^24 * 2^48 * 25 * e^25 < 2^113`, inside the
/// 128-bit range, so the loop neither wraps nor panics. A zero
/// denominator would panic and is ruled out by precondition.
#[verifier::external_body]
pub(crate) fn fake_exponential_raw(factor: u64, numerator: u64, denominator: u64) -> (r: u128)
    requires
        denominator > 0,
        factor <= 0x100_0000,
        denominator <= 0x100_0000,
        numerator <= 25 * denominator,
    ensures
        r == fake_exp_of(factor, numerator, denominator),
        numerator == 0 ==> r == factor,
{
    revm::context_interface::block::blob::fake_exponential(factor, numerator, denominator)
}

/// Approximates `factor * e^(numerator/denominator)` with the engine's
/// EIP-4844 Taylor-series helper. The bounds keep the helper's 128-bit
/// accumulator in range; a zero denominator is rejected by precondition
/// rather than by panic.
pub fn fake_exponential(factor: u64, numerator: u64, denominator: u64) -> (r: u128)
    requires
        denominator > 0,
        factor <= 0x100_0000,
        denominator <= 0x100_0000,
        numerator <= 25 * denominator,
    ensures
        r == fake_exp_of(factor, numerator, denominator),
        numerator == 0 ==> r == factor,
{
    fake_exponential_raw(factor, numerator, denominator)
}

} // verus!
