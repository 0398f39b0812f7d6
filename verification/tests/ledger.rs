//! Ledger behavior: default reads, write/read round trips, checkpointing,
//! commit finality, and the hex boundary.
use revm_sim::account::AccountInfo;
use revm_sim::errors::EvmError;
use revm_sim::evm::EVM;
use revm_sim::values::Uint256;

const A: &str = "0xaaaaaaaaaaaaaaaaaaaaaaaaaaaaaaaaaaaaaaaa";
const B: &str = "0xbbbbbbbbbbbbbbbbbbbbbbbbbbbbbbbbbbbbbbbb";

fn fresh() -> EVM {
    EVM::new(None, None, None, 10_000_000, false, "Cancun").unwrap()
}

#[test]
fn default_read_is_zero_valued() {
    let evm = fresh();
    let info = evm.basic(A).unwrap();
    assert!(info.balance.is_zero());
    assert_eq!(info.nonce, 0);
    assert!(info.code.is_none());
    let slot = evm.storage(A, Uint256::from_u64(7)).unwrap();
    assert!(slot.is_zero());
}

#[test]
fn set_balance_reads_back() {
    let mut evm = fresh();
    evm.set_balance(A, Uint256::from_u64(12345)).unwrap();
    assert_eq!(evm.get_balance(A).unwrap(), Uint256::from_u64(12345));
    let big = Uint256 { l0: 1, l1: 2, l2: 3, l3: 4 };
    evm.set_balance(B, big).unwrap();
    assert_eq!(evm.get_balance(B).unwrap(), big);
}

#[test]
fn set_storage_reads_back() {
    let mut evm = fresh();
    let k = Uint256::from_u64(9);
    let v = Uint256 { l0: 0, l1: 0, l2: 0, l3: 0xdead };
    evm.set_storage(A, k, v).unwrap();
    assert_eq!(evm.storage(A, k).unwrap(), v);
    assert!(evm.storage(A, Uint256::from_u64(10)).unwrap().is_zero());
}

#[test]
fn snapshot_revert_restores_balance() {
    let mut evm = fresh();
    evm.set_balance(B, Uint256::from_u64(100)).unwrap();
    let t = evm.snapshot();
    evm.set_balance(B, Uint256::from_u64(0)).unwrap();
    assert!(evm.get_balance(B).unwrap().is_zero());
    evm.revert(t).unwrap();
    assert_eq!(evm.get_balance(B).unwrap(), Uint256::from_u64(100));
}

#[test]
fn snapshot_revert_restores_storage_and_creation() {
    let mut evm = fresh();
    evm.set_storage(A, Uint256::from_u64(1), Uint256::from_u64(11)).unwrap();
    let t = evm.snapshot();
    evm.set_storage(A, Uint256::from_u64(1), Uint256::from_u64(22)).unwrap();
    evm.set_storage(A, Uint256::from_u64(2), Uint256::from_u64(33)).unwrap();
    evm.set_balance(B, Uint256::from_u64(5)).unwrap();
    evm.revert(t).unwrap();
    assert_eq!(evm.storage(A, Uint256::from_u64(1)).unwrap(), Uint256::from_u64(11));
    assert!(evm.storage(A, Uint256::from_u64(2)).unwrap().is_zero());
    // The account B was created inside the span; the revert removes it.
    assert!(evm.get_balance(B).unwrap().is_zero());
}

#[test]
fn nested_checkpoints_revert_in_order() {
    let mut evm = fresh();
    evm.set_balance(A, Uint256::from_u64(1)).unwrap();
    let t1 = evm.snapshot();
    evm.set_balance(A, Uint256::from_u64(2)).unwrap();
    let t2 = evm.snapshot();
    evm.set_balance(A, Uint256::from_u64(3)).unwrap();
    evm.revert(t2).unwrap();
    assert_eq!(evm.get_balance(A).unwrap(), Uint256::from_u64(2));
    evm.revert(t1).unwrap();
    assert_eq!(evm.get_balance(A).unwrap(), Uint256::from_u64(1));
}

#[test]
fn out_of_order_revert_invalidates_later_token() {
    let mut evm = fresh();
    evm.set_balance(A, Uint256::from_u64(1)).unwrap();
    let t1 = evm.snapshot();
    evm.set_balance(A, Uint256::from_u64(2)).unwrap();
    let t2 = evm.snapshot();
    evm.set_balance(A, Uint256::from_u64(3)).unwrap();
    evm.revert(t1).unwrap();
    assert_eq!(evm.get_balance(A).unwrap(), Uint256::from_u64(1));
    match evm.revert(t2) {
        Err(EvmError::NoCheckpointToRevert) => {},
        other => panic!("expected NoCheckpointToRevert, got {:?}", other),
    }
}

#[test]
fn commit_drops_all_checkpoints() {
    let mut evm = fresh();
    let t1 = evm.snapshot();
    evm.set_balance(A, Uint256::from_u64(7)).unwrap();
    let t2 = evm.snapshot();
    evm.commit();
    assert_eq!(evm.journal_depth(), 0);
    assert_eq!(evm.get_balance(A).unwrap(), Uint256::from_u64(7));
    match evm.revert(t1) {
        Err(EvmError::NoCheckpointToRevert) => {},
        other => panic!("expected NoCheckpointToRevert, got {:?}", other),
    }
    // With a new checkpoint outstanding, a stale token from before the
    // commit is invalid.
    let _t3 = evm.snapshot();
    match evm.revert(t2) {
        Err(EvmError::InvalidCheckpoint) => {},
        other => panic!("expected InvalidCheckpoint, got {:?}", other),
    }
}

#[test]
fn commit_is_idempotent() {
    let mut evm = fresh();
    evm.set_balance(A, Uint256::from_u64(4)).unwrap();
    evm.commit();
    evm.commit();
    assert_eq!(evm.get_balance(A).unwrap(), Uint256::from_u64(4));
    assert_eq!(evm.journal_depth(), 0);
}

#[test]
fn checkpoint_introspection() {
    let mut evm = fresh();
    assert_eq!(evm.journal_depth(), 0);
    assert_eq!(evm.journal_len(), 0);
    let t = evm.snapshot();
    assert_eq!(t.journal_i, 0);
    assert_eq!(t.log_i, 0);
    evm.set_balance(A, Uint256::from_u64(1)).unwrap();
    assert_eq!(evm.journal_depth(), 1);
    assert_eq!(evm.journal_len(), 1);
    let ids = evm.checkpoint_ids();
    assert_eq!(ids.len(), 1);
    assert_eq!(ids[0], t);
}

#[test]
fn malformed_addresses_are_rejected() {
    let mut evm = fresh();
    match evm.basic("bogus") {
        Err(EvmError::InvalidArgument(_)) => {},
        other => panic!("expected InvalidArgument, got {:?}", other),
    }
    match evm.get_balance("0x123") {
        Err(EvmError::InvalidArgument(_)) => {},
        other => panic!("expected InvalidArgument, got {:?}", other),
    }
    match evm.set_balance("0xzzzzzzzzzzzzzzzzzzzzzzzzzzzzzzzzzzzzzzzz", Uint256::from_u64(1)) {
        Err(EvmError::InvalidArgument(_)) => {},
        other => panic!("expected InvalidArgument, got {:?}", other),
    }
}

#[test]
fn insert_account_info_keeps_storage() {
    let mut evm = fresh();
    evm.set_storage(A, Uint256::from_u64(1), Uint256::from_u64(5)).unwrap();
    let info = AccountInfo::new(Some(Uint256::from_u64(77)), 3, None, None);
    evm.insert_account_info(A, info).unwrap();
    let read = evm.basic(A).unwrap();
    assert_eq!(read.balance, Uint256::from_u64(77));
    assert_eq!(read.nonce, 3);
    assert_eq!(evm.storage(A, Uint256::from_u64(1)).unwrap(), Uint256::from_u64(5));
}

#[test]
fn code_by_hash_finds_stored_code() {
    let mut evm = fresh();
    // The digest of the empty byte sequence always answers.
    let empty_hash = "0xc5d2460186f7233c927e7db2dcc703c0e500b653ca82273b7bfad8045d85a470";
    assert_eq!(evm.code_by_hash(empty_hash).unwrap(), Vec::<u8>::new());
    // A stored account's code is found by its (caller-supplied) hash.
    let tag = "0x0101010101010101010101010101010101010101010101010101010101010101";
    let h = revm_sim::hex::parse_hash(tag).unwrap();
    let info = AccountInfo::new(None, 0, Some(h), Some(vec![1, 2, 3]));
    evm.insert_account_info(A, info).unwrap();
    assert_eq!(evm.code_by_hash(tag).unwrap(), vec![1, 2, 3]);
    // An unknown digest is NotFound.
    let other = "0x0202020202020202020202020202020202020202020202020202020202020202";
    match evm.code_by_hash(other) {
        Err(EvmError::NotFound) => {},
        r => panic!("expected NotFound, got {:?}", r),
    }
    // A malformed digest never reaches the store.
    match evm.code_by_hash("0x01") {
        Err(EvmError::InvalidArgument(_)) => {},
        r => panic!("expected InvalidArgument, got {:?}", r),
    }
}

#[test]
fn get_accounts_lists_stored_addresses() {
    let mut evm = fresh();
    evm.set_balance(A, Uint256::from_u64(1)).unwrap();
    evm.set_balance(B, Uint256::from_u64(2)).unwrap();
    let accounts = evm.get_accounts();
    assert_eq!(accounts.len(), 2);
    let names: Vec<&str> = accounts.iter().map(|p| p.0.as_str()).collect();
    assert!(names.contains(&A));
    assert!(names.contains(&B));
    let db = evm.db_accounts();
    assert_eq!(db.len(), 2);
}

#[test]
fn account_info_hash_defaults() {
    let zeroed = AccountInfo::zeroed();
    let built = AccountInfo::new(None, 0, None, None);
    assert_eq!(zeroed.code_hash, built.code_hash);
    // A present code without a supplied hash gets the digest of the code,
    // which differs from the empty digest.
    let with_code = AccountInfo::new(None, 0, None, Some(vec![0x60, 0x00]));
    assert_ne!(with_code.code_hash, zeroed.code_hash);
}
