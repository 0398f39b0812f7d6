//! Execution behavior: deployments and calls through the engine, the
//! non-committing call guarantee, the remote-backed read protocol, block
//! hashes, and the blob-fee helper.
use revm_sim::engine::fake_exponential;
use revm_sim::env::{CfgEnv, Env};
use revm_sim::errors::{EvmError, RemoteKey};
use revm_sim::evm::EVM;
use revm_sim::hex::parse_address;
use revm_sim::account::AccountInfo;
use revm_sim::values::{BlockPin, Hash256, Uint256};

const DEPLOYER: &str = "0xaaaaaaaaaaaaaaaaaaaaaaaaaaaaaaaaaaaaaaaa";
const CALLER: &str = "0xcccccccccccccccccccccccccccccccccccccccc";

fn fresh() -> EVM {
    EVM::new(None, None, None, 10_000_000, false, "Cancun").unwrap()
}

/// Init code whose runtime is a single STOP: the init code itself STOPs,
/// deploying an empty contract.
fn stop_init_code() -> Vec<u8> {
    vec![0x00]
}

/// Init code that deploys `PUSH1 1, PUSH1 0, SSTORE, STOP`: each call to
/// the deployed contract writes 1 into slot 0.
fn sstore_init_code() -> Vec<u8> {
    vec![0x65, 0x60, 0x01, 0x60, 0x00, 0x55, 0x00, 0x60, 0x00, 0x52, 0x60, 0x06, 0x60, 0x1a, 0xf3]
}

#[test]
fn deploy_is_deterministic_and_callable() {
    let mut evm = fresh();
    let addr = evm.deploy(DEPLOYER, stop_init_code(), None, None, None, false).unwrap();
    assert_eq!(addr.len(), 42);
    assert!(addr.starts_with("0x"));
    // The created address is a function of (deployer, nonce): a fresh
    // instance deploys to the same address.
    let mut evm2 = fresh();
    let addr2 = evm2.deploy(DEPLOYER, stop_init_code(), None, None, None, false).unwrap();
    assert_eq!(addr, addr2);
    // Calling the deployed contract succeeds with empty output and burns
    // gas.
    let out = evm.message_call(CALLER, &addr, None, None, None, None, false).unwrap();
    assert!(out.is_empty());
    let res = evm.result().as_ref().unwrap();
    assert!(res.is_success);
    assert!(!res.is_halt);
    assert!(res.gas_used > 0);
}

#[test]
fn deploy_bumps_deployer_nonce() {
    let mut evm = fresh();
    evm.deploy(DEPLOYER, stop_init_code(), None, None, None, false).unwrap();
    let info = evm.basic(DEPLOYER).unwrap();
    assert_eq!(info.nonce, 1);
}

#[test]
fn non_committing_call_has_no_persistent_effect() {
    let mut evm = fresh();
    let addr = evm.deploy(DEPLOYER, sstore_init_code(), None, None, None, false).unwrap();
    let before = evm.storage(&addr, Uint256::zero()).unwrap();
    assert!(before.is_zero());
    evm.message_call(CALLER, &addr, None, None, None, None, false).unwrap();
    assert!(evm.result().as_ref().unwrap().is_success);
    // The call ran SSTORE inside the engine, but nothing persisted.
    assert!(evm.storage(&addr, Uint256::zero()).unwrap().is_zero());
    assert!(evm.get_balance(CALLER).unwrap().is_zero());
    let info = evm.basic(CALLER).unwrap();
    assert_eq!(info.nonce, 0);
}

#[test]
fn committing_call_persists_the_diff() {
    let mut evm = fresh();
    let addr = evm.deploy(DEPLOYER, sstore_init_code(), None, None, None, false).unwrap();
    evm.message_call_commit(CALLER, &addr, None, None, None, None).unwrap();
    assert_eq!(evm.storage(&addr, Uint256::zero()).unwrap(), Uint256::from_u64(1));
}

#[test]
fn static_call_reports_violation_and_keeps_state() {
    let mut evm = fresh();
    let addr = evm.deploy(DEPLOYER, sstore_init_code(), None, None, None, false).unwrap();
    match evm.message_call(CALLER, &addr, None, None, None, None, true) {
        Err(EvmError::ExecutionFailed(_)) => {},
        r => panic!("expected ExecutionFailed under the static policy, got {:?}", r),
    }
    let res = evm.result().as_ref().unwrap();
    assert!(!res.is_success);
    assert!(res.is_halt);
    assert_eq!(res.reason, "StaticViolation");
    // A non-success outcome reports no refund and no logs.
    assert_eq!(res.gas_refunded, 0);
    assert!(res.logs.is_empty());
    assert!(evm.storage(&addr, Uint256::zero()).unwrap().is_zero());
}

#[test]
fn reverting_a_deployment_removes_it() {
    let mut evm = fresh();
    let t = evm.snapshot();
    let addr = evm.deploy(DEPLOYER, sstore_init_code(), None, None, None, false).unwrap();
    assert!(evm.get_code(&addr).unwrap().is_some());
    evm.revert(t).unwrap();
    assert!(evm.get_code(&addr).unwrap().is_none());
    let info = evm.basic(DEPLOYER).unwrap();
    assert_eq!(info.nonce, 0);
}

#[test]
fn value_transfer_moves_balance() {
    let mut evm = fresh();
    evm.set_balance(CALLER, Uint256::from_u64(1000)).unwrap();
    let addr = evm.deploy(DEPLOYER, stop_init_code(), None, None, None, false).unwrap();
    evm.message_call_commit(CALLER, &addr, None, Some(Uint256::from_u64(40)), None, None).unwrap();
    assert_eq!(evm.get_balance(CALLER).unwrap(), Uint256::from_u64(960));
    assert_eq!(evm.get_balance(&addr).unwrap(), Uint256::from_u64(40));
}

#[test]
fn insufficient_balance_is_a_validation_error() {
    let mut evm = fresh();
    let addr = evm.deploy(DEPLOYER, stop_init_code(), None, None, None, false).unwrap();
    match evm.message_call(CALLER, &addr, None, Some(Uint256::from_u64(1)), None, None, false) {
        Err(EvmError::ValidationError(_)) => {},
        r => panic!("expected ValidationError, got {:?}", r),
    }
    assert!(evm.result().is_none());
}

#[test]
fn local_block_hash_is_the_digest_of_the_decimal_number() {
    let evm = fresh();
    // keccak-256 of the ASCII rendering "0".
    let h = evm.block_hash(0).unwrap();
    assert_eq!(h.hi, 0x044852b2a670ade5407e78fb2863c51d);
    assert_eq!(h.lo, 0xe9fcb96542a07186fe3aeda6bb8a116d);
    // Deterministic.
    assert_eq!(evm.block_hash(7).unwrap(), evm.block_hash(7).unwrap());
}

fn remote() -> EVM {
    EVM::new(
        None,
        Some(String::from("http://node.invalid/rpc")),
        Some("12345"),
        10_000_000,
        false,
        "Cancun",
    ).unwrap()
}

#[test]
fn remote_reads_ask_once_then_serve_from_cache() {
    let mut evm = remote();
    let a = parse_address(DEPLOYER).unwrap();
    match evm.basic(DEPLOYER) {
        Err(EvmError::RemoteFetchRequired(RemoteKey::Account(x))) => assert_eq!(x, a),
        r => panic!("expected a fetch request, got {:?}", r),
    }
    let fetched = AccountInfo::new(Some(Uint256::from_u64(55)), 9, None, None);
    evm.install_fetched_account(a, Some(fetched));
    // Two consecutive reads: identical info, and no further fetch request.
    let first = evm.basic(DEPLOYER).unwrap();
    let second = evm.basic(DEPLOYER).unwrap();
    assert_eq!(first.balance, second.balance);
    assert_eq!(first.nonce, 9);
    assert_eq!(second.balance, Uint256::from_u64(55));
}

#[test]
fn remote_missing_account_is_a_valid_zero_answer() {
    let mut evm = remote();
    let a = parse_address(CALLER).unwrap();
    assert!(matches!(evm.basic(CALLER), Err(EvmError::RemoteFetchRequired(_))));
    evm.install_fetched_account(a, None);
    let info = evm.basic(CALLER).unwrap();
    assert!(info.balance.is_zero());
    assert_eq!(info.nonce, 0);
}

#[test]
fn remote_slots_follow_the_account() {
    let mut evm = remote();
    let a = parse_address(DEPLOYER).unwrap();
    let k = Uint256::from_u64(3);
    // Installing a slot before the account is refused with the account
    // request.
    match evm.install_fetched_slot(a, k, Uint256::from_u64(1)) {
        Err(EvmError::RemoteFetchRequired(RemoteKey::Account(x))) => assert_eq!(x, a),
        r => panic!("expected the account request, got {:?}", r),
    }
    evm.install_fetched_account(a, None);
    match evm.storage(DEPLOYER, k) {
        Err(EvmError::RemoteFetchRequired(RemoteKey::Slot(x, kk))) => {
            assert_eq!(x, a);
            assert_eq!(kk, k);
        },
        r => panic!("expected a slot request, got {:?}", r),
    }
    evm.install_fetched_slot(a, k, Uint256::from_u64(77)).unwrap();
    assert_eq!(evm.storage(DEPLOYER, k).unwrap(), Uint256::from_u64(77));
    assert_eq!(evm.storage(DEPLOYER, k).unwrap(), Uint256::from_u64(77));
}

#[test]
fn remote_block_hashes_are_cached() {
    let mut evm = remote();
    match evm.block_hash(42) {
        Err(EvmError::RemoteFetchRequired(RemoteKey::BlockHash(42))) => {},
        r => panic!("expected a block-hash request, got {:?}", r),
    }
    let h = Hash256 { hi: 1, lo: 2 };
    evm.install_block_hash(42, h);
    assert_eq!(evm.block_hash(42).unwrap(), h);
    // The cache is keyed uniquely: a second answer for the same number is
    // ignored, so reads stay deterministic.
    evm.install_block_hash(42, Hash256 { hi: 9, lo: 9 });
    assert_eq!(evm.block_hash(42).unwrap(), h);
    assert_eq!(evm.block_hash(42).unwrap(), evm.block_hash(42).unwrap());
}

#[test]
fn non_mainnet_chain_id_still_executes() {
    let env = Env::new(Some(CfgEnv { chain_id: 5 }), None, None);
    let mut evm = EVM::new(Some(env), None, None, 10_000_000, false, "Cancun").unwrap();
    let addr = evm.deploy(DEPLOYER, sstore_init_code(), None, None, None, false).unwrap();
    evm.message_call_commit(CALLER, &addr, None, None, None, None).unwrap();
    assert_eq!(evm.storage(&addr, Uint256::zero()).unwrap(), Uint256::from_u64(1));
}

#[test]
fn fork_pin_and_locator_are_readable() {
    let evm = remote();
    assert_eq!(evm.fork_pin(), Some(BlockPin::Number(12345)));
    assert_eq!(evm.fork_url().map(|u| u.as_str()), Some("http://node.invalid/rpc"));
    let local = fresh();
    assert!(local.fork_pin().is_none());
    assert!(local.fork_url().is_none());
    let pinned = EVM::new(None, Some(String::from("u")), Some("latest"), 1, false, "Cancun")
        .unwrap();
    assert_eq!(pinned.fork_pin(), Some(BlockPin::Latest));
}

#[test]
fn remote_destroy_leaves_an_authoritative_empty_account() {
    let mut evm = remote();
    let a = parse_address(DEPLOYER).unwrap();
    evm.install_fetched_account(a, Some(AccountInfo::new(Some(Uint256::from_u64(7)), 2, None, None)));
    evm.destroy_account(DEPLOYER).unwrap();
    // The address stays served locally as the zero-valued account; no
    // fetch request, no resurrection from the remote source.
    let info = evm.basic(DEPLOYER).unwrap();
    assert!(info.balance.is_zero());
    assert_eq!(info.nonce, 0);
}

#[test]
fn remote_execution_is_delegated() {
    let mut evm = remote();
    match evm.message_call(CALLER, DEPLOYER, None, None, None, None, false) {
        Err(EvmError::RemoteFetchRequired(RemoteKey::FullState)) => {},
        r => panic!("expected a full-state delegation, got {:?}", r),
    }
}

#[test]
fn remote_writes_require_a_served_account() {
    let mut evm = remote();
    let a = parse_address(DEPLOYER).unwrap();
    assert!(matches!(
        evm.set_balance(DEPLOYER, Uint256::from_u64(1)),
        Err(EvmError::RemoteFetchRequired(_))
    ));
    evm.install_fetched_account(a, Some(AccountInfo::new(None, 4, None, None)));
    evm.set_balance(DEPLOYER, Uint256::from_u64(1)).unwrap();
    // The write kept the fetched nonce.
    let info = evm.basic(DEPLOYER).unwrap();
    assert_eq!(info.nonce, 4);
    assert_eq!(info.balance, Uint256::from_u64(1));
}

#[test]
fn bad_fork_pin_is_rejected() {
    match EVM::new(None, Some(String::from("http://x.invalid")), Some("not-a-pin"), 1, false, "Cancun") {
        Err(EvmError::InvalidArgument(_)) => {},
        r => panic!("expected InvalidArgument, got {:?}", r.map(|_| ())),
    }
    // The accepted pin shapes.
    assert!(EVM::new(None, Some(String::from("u")), Some("latest"), 1, false, "Cancun").is_ok());
    assert!(EVM::new(None, Some(String::from("u")), Some("18446744"), 1, false, "Cancun").is_ok());
    assert!(EVM::new(
        None,
        Some(String::from("u")),
        Some("0x0101010101010101010101010101010101010101010101010101010101010101"),
        1,
        false,
        "Cancun",
    ).is_ok());
}

#[test]
fn blob_fee_helper_matches_known_values() {
    assert_eq!(fake_exponential(1, 0, 1), 1);
    assert_eq!(fake_exponential(38493, 0, 1000), 38493);
    assert_eq!(fake_exponential(1, 2, 1), 6);
    assert_eq!(fake_exponential(10, 8, 2), 542);
    assert_eq!(fake_exponential(2, 5, 2), 23);
    assert_eq!(fake_exponential(1, 50_000_000, 2_225_652), 5_709_098_764);
}

#[test]
fn logs_are_kept_on_committed_runs() {
    // Runtime `PUSH1 0, PUSH1 0, LOG0, STOP` emits one empty log per call.
    let init = vec![
        0x65, 0x60, 0x00, 0x60, 0x00, 0xa0, 0x00, 0x60, 0x00, 0x52, 0x60, 0x06, 0x60, 0x1a, 0xf3,
    ];
    let mut evm = fresh();
    let addr = evm.deploy(DEPLOYER, init, None, None, None, false).unwrap();
    assert_eq!(evm.log_count(), 0);
    evm.message_call_commit(CALLER, &addr, None, None, None, None).unwrap();
    assert_eq!(evm.log_count(), 1);
    let res = evm.result().as_ref().unwrap();
    assert_eq!(res.logs.len(), 1);
    assert_eq!(res.logs[0].address, parse_address(&addr).unwrap());
    // A non-committing call reports its logs but keeps none.
    evm.message_call(CALLER, &addr, None, None, None, None, false).unwrap();
    assert_eq!(evm.log_count(), 1);
}
