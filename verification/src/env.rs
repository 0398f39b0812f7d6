//! The execution environment: configuration, block and transaction
//! parameters as plain values, with the defaults a simulation harness
//! wants.
use vstd::prelude::*;

use crate::values::{Address, Hash256, Uint256};

verus! {

/// Engine configuration passed through to the engine.
#[derive(Debug)]
pub struct CfgEnv {
    pub chain_id: u64,
}

impl CfgEnv {
    /// The default configuration: mainnet chain id.
    pub fn new() -> (r: Self)
        ensures
            r.chain_id == 1,
    {
        CfgEnv { chain_id: 1 }
    }
}

/// Block parameters for execution.
#[derive(Debug)]
pub struct BlockEnv {
    pub number: Uint256,
    pub coinbase: Address,
    pub timestamp: Uint256,
    pub difficulty: Uint256,
    pub prevrandao: Hash256,
    pub basefee: u64,
    pub gas_limit: u64,
    pub excess_blob_gas: u64,
}

impl BlockEnv {
    /// Builds block parameters; every argument left out falls back to its
    /// default: zeroes, except a timestamp of one and an unbounded gas
    /// limit.
    pub fn new(
        number: Option<Uint256>,
        coinbase: Option<Address>,
        timestamp: Option<Uint256>,
        difficulty: Option<Uint256>,
        prevrandao: Option<Hash256>,
        basefee: Option<u64>,
        gas_limit: Option<u64>,
        excess_blob_gas: Option<u64>,
    ) -> (r: Self)
        ensures
            r.number == match number {
                Some(v) => v,
                None => Uint256 { l0: 0, l1: 0, l2: 0, l3: 0 },
            },
            r.coinbase == match coinbase {
                Some(v) => v,
                None => Address { hi: 0, lo: 0 },
            },
            r.timestamp == match timestamp {
                Some(v) => v,
                None => Uint256 { l0: 1, l1: 0, l2: 0, l3: 0 },
            },
            r.difficulty == match difficulty {
                Some(v) => v,
                None => Uint256 { l0: 0, l1: 0, l2: 0, l3: 0 },
            },
            r.prevrandao == match prevrandao {
                Some(v) => v,
                None => Hash256 { hi: 0, lo: 0 },
            },
            r.basefee == match basefee {
                Some(v) => v,
                None => 0u64,
            },
            r.gas_limit == match gas_limit {
                Some(v) => v,
                None => u64::MAX,
            },
            r.excess_blob_gas == match excess_blob_gas {
                Some(v) => v,
                None => 0u64,
            },
    {
        BlockEnv {
            number: match number {
                Some(v) => v,
                None => Uint256::zero(),
            },
            coinbase: match coinbase {
                Some(v) => v,
                None => Address::zero(),
            },
            timestamp: match timestamp {
                Some(v) => v,
                None => Uint256::from_u64(1),
            },
            difficulty: match difficulty {
                Some(v) => v,
                None => Uint256::zero(),
            },
            prevrandao: match prevrandao {
                Some(v) => v,
                None => Hash256::zero(),
            },
            basefee: match basefee {
                Some(v) => v,
                None => 0,
            },
            gas_limit: match gas_limit {
                Some(v) => v,
                None => u64::MAX,
            },
            excess_blob_gas: match excess_blob_gas {
                Some(v) => v,
                None => 0,
            },
        }
    }
}

/// Transaction parameters for execution.
#[derive(Debug)]
pub struct TxEnv {
    pub caller: Address,
    pub gas_limit: u64,
    pub gas_price: u128,
    pub gas_priority_fee: Option<u128>,
    pub to: Option<Address>,
    pub value: Uint256,
    pub data: Vec<u8>,
    pub chain_id: Option<u64>,
    pub nonce: Option<u64>,
}

/// The mathematical shape of the transaction parameters.
pub struct TxModel {
    pub caller: Address,
    pub gas_limit: u64,
    pub gas_price: u128,
    pub gas_priority_fee: Option<u128>,
    pub to: Option<Address>,
    pub value: Uint256,
    pub data: Seq<u8>,
    pub chain_id: Option<u64>,
    pub nonce: Option<u64>,
}

impl View for TxEnv {
    type V = TxModel;

    open spec fn view(&self) -> TxModel {
        TxModel {
            caller: self.caller,
            gas_limit: self.gas_limit,
            gas_price: self.gas_price,
            gas_priority_fee: self.gas_priority_fee,
            to: self.to,
            value: self.value,
            data: self.data@,
            chain_id: self.chain_id,
            nonce: self.nonce,
        }
    }
}

impl TxEnv {
    /// Builds transaction parameters; `to` left out denotes contract
    /// creation, a missing gas limit is unbounded, and prices default to
    /// zero so that fee checks never block a simulated call. The engine's
    /// current transaction kinds offer no salted creation, so deployments
    /// always derive their address from the deployer and its nonce.
    pub fn new(
        caller: Option<Address>,
        gas_limit: Option<u64>,
        gas_price: Option<u128>,
        gas_priority_fee: Option<u128>,
        to: Option<Address>,
        value: Option<Uint256>,
        data: Option<Vec<u8>>,
        chain_id: Option<u64>,
        nonce: Option<u64>,
    ) -> (r: Self)
        ensures
            r.caller == match caller {
                Some(v) => v,
                None => Address { hi: 0, lo: 0 },
            },
            r.gas_limit == match gas_limit {
                Some(v) => v,
                None => u64::MAX,
            },
            r.gas_price == match gas_price {
                Some(v) => v,
                None => 0u128,
            },
            r.gas_priority_fee == gas_priority_fee,
            r.to == to,
            r.value == match value {
                Some(v) => v,
                None => Uint256 { l0: 0, l1: 0, l2: 0, l3: 0 },
            },
            r@.data == match data {
                Some(d) => d@,
                None => Seq::<u8>::empty(),
            },
            r.chain_id == chain_id,
            r.nonce == nonce,
    {
        let r = TxEnv {
            caller: match caller {
                Some(v) => v,
                None => Address::zero(),
            },
            gas_limit: match gas_limit {
                Some(v) => v,
                None => u64::MAX,
            },
            gas_price: match gas_price {
                Some(v) => v,
                None => 0,
            },
            gas_priority_fee,
            to,
            value: match value {
                Some(v) => v,
                None => Uint256::zero(),
            },
            data: match data {
                Some(d) => d,
                None => Vec::new(),
            },
            chain_id,
            nonce,
        };
        proof {
            if r@.data.len() == 0 {
                assert(r@.data =~= Seq::<u8>::empty());
            }
        }
        r
    }
}

/// The default block parameters: zeroes, except a timestamp of one and
/// an unbounded gas limit.
pub open spec fn default_block_env() -> BlockEnv {
    BlockEnv {
        number: Uint256 { l0: 0, l1: 0, l2: 0, l3: 0 },
        coinbase: Address { hi: 0, lo: 0 },
        timestamp: Uint256 { l0: 1, l1: 0, l2: 0, l3: 0 },
        difficulty: Uint256 { l0: 0, l1: 0, l2: 0, l3: 0 },
        prevrandao: Hash256 { hi: 0, lo: 0 },
        basefee: 0,
        gas_limit: u64::MAX,
        excess_blob_gas: 0,
    }
}

/// The default transaction parameters: a zero caller, contract creation,
/// zero value and prices, empty data, and an unbounded gas limit.
pub open spec fn default_tx_model() -> TxModel {
    TxModel {
        caller: Address { hi: 0, lo: 0 },
        gas_limit: u64::MAX,
        gas_price: 0,
        gas_priority_fee: None,
        to: None,
        value: Uint256 { l0: 0, l1: 0, l2: 0, l3: 0 },
        data: Seq::empty(),
        chain_id: None,
        nonce: None,
    }
}

/// The whole environment: configuration, block and transaction defaults.
#[derive(Debug)]
pub struct Env {
    pub cfg: CfgEnv,
    pub block: BlockEnv,
    pub tx: TxEnv,
}

impl Env {
    /// Builds an environment from optional parts; missing parts are the
    /// zero-valued defaults.
    pub fn new(cfg: Option<CfgEnv>, block: Option<BlockEnv>, tx: Option<TxEnv>) -> (r: Self)
        ensures
            r.cfg.chain_id == match cfg {
                Some(c) => c.chain_id,
                None => 1u64,
            },
            r.block == match block {
                Some(b) => b,
                None => default_block_env(),
            },
            r.tx@ == match tx {
                Some(t) => t@,
                None => default_tx_model(),
            },
    {
        Env {
            cfg: match cfg {
                Some(c) => c,
                None => CfgEnv::new(),
            },
            block: match block {
                Some(b) => b,
                None => BlockEnv::new(None, None, None, None, None, None, None, None),
            },
            tx: match tx {
                Some(t) => t,
                None => TxEnv::new(None, None, None, None, None, None, None, None, None),
            },
        }
    }
}

/// Construction options for an EVM instance.
#[derive(Debug)]
pub struct EvmOpts {
    pub env: Option<Env>,
    pub fork_url: Option<String>,
    pub fork_block_number: Option<u64>,
    pub gas_limit: u64,
    pub tracing: bool,
}

impl EvmOpts {
    pub fn new(env: Option<Env>, fork_url: Option<String>) -> (r: Self)
        ensures
            r.fork_url == fork_url,
            r.gas_limit == u64::MAX,
            !r.tracing,
            r.fork_block_number is None,
    {
        EvmOpts { env, fork_url, fork_block_number: None, gas_limit: u64::MAX, tracing: false }
    }
}

} // verus!
