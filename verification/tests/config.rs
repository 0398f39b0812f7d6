//! Environment construction defaults, option handling, and the error
//! vocabulary.
use revm_sim::env::{BlockEnv, CfgEnv, Env, EvmOpts, TxEnv};
use revm_sim::errors::{EvmError, RemoteKey};
use revm_sim::hex::parse_address;
use revm_sim::values::{Address, Uint256};

#[test]
fn cfg_env_defaults_to_mainnet() {
    assert_eq!(CfgEnv::new().chain_id, 1);
}

#[test]
fn block_env_defaults() {
    let b = BlockEnv::new(None, None, None, None, None, None, None, None);
    assert!(b.number.is_zero());
    assert_eq!(b.coinbase, Address { hi: 0, lo: 0 });
    assert_eq!(b.timestamp, Uint256::from_u64(1));
    assert_eq!(b.basefee, 0);
    assert_eq!(b.gas_limit, u64::MAX);
    assert_eq!(b.excess_blob_gas, 0);
}

#[test]
fn tx_env_defaults() {
    let t = TxEnv::new(None, None, None, None, None, None, None, None, None);
    assert_eq!(t.caller, Address { hi: 0, lo: 0 });
    assert_eq!(t.gas_limit, u64::MAX);
    assert_eq!(t.gas_price, 0);
    assert!(t.to.is_none());
    assert!(t.value.is_zero());
    assert!(t.data.is_empty());
    assert!(t.nonce.is_none());
    let target = parse_address("0xaaaaaaaaaaaaaaaaaaaaaaaaaaaaaaaaaaaaaaaa").unwrap();
    let t2 = TxEnv::new(
        Some(target),
        Some(5),
        Some(7),
        Some(9),
        Some(target),
        Some(Uint256::from_u64(3)),
        Some(vec![1]),
        Some(11),
        Some(13),
    );
    assert_eq!(t2.caller, target);
    assert_eq!(t2.gas_limit, 5);
    assert_eq!(t2.gas_price, 7);
    assert_eq!(t2.gas_priority_fee, Some(9));
    assert_eq!(t2.to, Some(target));
    assert_eq!(t2.value, Uint256::from_u64(3));
    assert_eq!(t2.data, vec![1]);
    assert_eq!(t2.chain_id, Some(11));
    assert_eq!(t2.nonce, Some(13));
}

#[test]
fn env_and_opts_defaults() {
    let e = Env::new(None, None, None);
    assert_eq!(e.cfg.chain_id, 1);
    let opts = EvmOpts::new(None, Some(String::from("http://node.invalid")));
    assert_eq!(opts.fork_url.as_deref(), Some("http://node.invalid"));
    assert_eq!(opts.gas_limit, u64::MAX);
    assert!(!opts.tracing);
    assert!(opts.fork_block_number.is_none());
}

#[test]
fn error_kinds_are_stable() {
    let a = parse_address("0xaaaaaaaaaaaaaaaaaaaaaaaaaaaaaaaaaaaaaaaa").unwrap();
    assert_eq!(EvmError::InvalidArgument(String::from("x")).kind(), "InvalidArgument");
    assert_eq!(EvmError::ValidationError(String::from("x")).kind(), "ValidationError");
    assert_eq!(EvmError::RemoteFetchError(String::from("x")).kind(), "RemoteFetchError");
    assert_eq!(
        EvmError::RemoteFetchRequired(RemoteKey::Account(a)).kind(),
        "RemoteFetchRequired"
    );
    assert_eq!(EvmError::InvalidCheckpoint.kind(), "InvalidCheckpoint");
    assert_eq!(EvmError::NoCheckpointToRevert.kind(), "NoCheckpointToRevert");
    assert_eq!(EvmError::NotFound.kind(), "NotFound");
    assert_eq!(EvmError::ExecutionFailed(String::from("x")).kind(), "ExecutionFailed");
}

#[test]
fn addresses_render_and_parse_back() {
    let mut evm = revm_sim::evm::EVM::new(None, None, None, 1_000_000, false, "Cancun").unwrap();
    let name = "0x00ff00ff00ff00ff00ff00ff00ff00ff00ff00ff";
    evm.set_balance(name, Uint256::from_u64(1)).unwrap();
    let accounts = evm.get_accounts();
    assert_eq!(accounts.len(), 1);
    assert_eq!(accounts[0].0, name);
    assert_eq!(parse_address(&accounts[0].0).unwrap(), parse_address(name).unwrap());
}
