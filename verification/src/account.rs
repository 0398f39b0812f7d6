//! Account data: balance, nonce, code and code hash, with the policy that a
//! missing code hash defaults to the digest of the code (or of the empty byte
//! sequence when there is no code).
use vstd::prelude::*;

use crate::engine::{keccak_bytes, keccak_of};
use crate::values::{Hash256, Uint256};

verus! {

/// The mathematical shape of an account's basic data: code as a byte
/// sequence rather than as a particular vector.
#[verifier::ext_equal]
pub struct InfoModel {
    pub balance: Uint256,
    pub nonce: u64,
    pub code: Option<Seq<u8>>,
    pub code_hash: Hash256,
}

impl InfoModel {
    /// The zero-valued account: no balance, no nonce, no code, and the
    /// digest of the empty byte sequence as its code hash.
    pub open spec fn zero() -> InfoModel {
        InfoModel {
            balance: Uint256 { l0: 0, l1: 0, l2: 0, l3: 0 },
            nonce: 0,
            code: None,
            code_hash: keccak_of(Seq::<u8>::empty()),
        }
    }
}

/// Code normalized for comparison: absent code and empty code are the same
/// thing.
pub open spec fn norm_code(c: Option<Seq<u8>>) -> Option<Seq<u8>> {
    match c {
        Some(b) => if b.len() == 0 {
            None
        } else {
            Some(b)
        },
        None => None,
    }
}

/// Byte-wise equality of two byte vectors.
pub fn bytes_eq(a: &Vec<u8>, b: &Vec<u8>) -> (r: bool)
    ensures
        r == (a@ == b@),
{
    let n = a.len();
    let m = b.len();
    if n != m {
        proof {
            assert(a@.len() != b@.len());
        }
        return false;
    }
    let mut i: usize = 0;
    while i < n
        invariant
            n == a@.len() && n == b@.len(),
            i <= n,
            forall|j: int| 0 <= j < i ==> a@[j] == b@[j],
        decreases n - i,
    {
        if a[i] != b[i] {
            return false;
        }
        i += 1;
    }
    proof {
        assert(a@ =~= b@);
    }
    true
}

/// Whether two optional code blobs are the same after normalization.
pub fn codes_norm_eq(a: &Option<Vec<u8>>, b: &Option<Vec<u8>>) -> (r: bool)
    ensures
        r == (norm_code(match a {
            Some(v) => Some(v@),
            None => None,
        }) == norm_code(
            match b {
                Some(v) => Some(v@),
                None => None,
            },
        )),
{
    match (a, b) {
        (None, None) => true,
        (Some(x), None) => x.len() == 0,
        (None, Some(y)) => y.len() == 0,
        (Some(x), Some(y)) => {
            if x.len() == 0 {
                y.len() == 0
            } else if y.len() == 0 {
                false
            } else {
                bytes_eq(x, y)
            }
        },
    }
}

/// Basic account information as the ledger stores it.
#[derive(Debug)]
pub struct AccountInfo {
    pub balance: Uint256,
    pub nonce: u64,
    pub code: Option<Vec<u8>>,
    pub code_hash: Hash256,
}

impl View for AccountInfo {
    type V = InfoModel;

    open spec fn view(&self) -> InfoModel {
        InfoModel {
            balance: self.balance,
            nonce: self.nonce,
            code: match self.code {
                Some(c) => Some(c@),
                None => None,
            },
            code_hash: self.code_hash,
        }
    }
}

impl AccountInfo {
    /// The zero-valued account information handed out for addresses that
    /// were never written.
    pub fn zeroed() -> (r: Self)
        ensures
            r@ == InfoModel::zero(),
    {
        let empty: Vec<u8> = Vec::new();
        AccountInfo {
            balance: Uint256::zero(),
            nonce: 0,
            code: None,
            code_hash: keccak_bytes(&empty),
        }
    }

    /// Builds account information. A code hash given by the caller is kept
    /// as it is; otherwise the hash is the digest of the code, or of the
    /// empty byte sequence when there is no code.
    pub fn new(
        balance: Option<Uint256>,
        nonce: u64,
        code_hash: Option<Hash256>,
        code: Option<Vec<u8>>,
    ) -> (r: Self)
        ensures
            r.balance == match balance {
                Some(b) => b,
                None => Uint256 { l0: 0, l1: 0, l2: 0, l3: 0 },
            },
            r.nonce == nonce,
            r@.code == match code {
                Some(c) => Some(c@),
                None => None::<Seq<u8>>,
            },
            r.code_hash == match code_hash {
                Some(h) => h,
                None => match code {
                    Some(c) => keccak_of(c@),
                    None => keccak_of(Seq::<u8>::empty()),
                },
            },
    {
        let hash = match code_hash {
            Some(h) => h,
            None => match &code {
                Some(c) => keccak_bytes(c),
                None => {
                    let empty: Vec<u8> = Vec::new();
                    keccak_bytes(&empty)
                },
            },
        };
        let bal = match balance {
            Some(b) => b,
            None => Uint256::zero(),
        };
        AccountInfo { balance: bal, nonce, code, code_hash: hash }
    }

    /// An owned copy with the same view.
    pub fn duplicate(&self) -> (r: Self)
        ensures
            r@ == self@,
    {
        AccountInfo {
            balance: self.balance,
            nonce: self.nonce,
            code: match &self.code {
                Some(c) => Some(c.clone()),
                None => None,
            },
            code_hash: self.code_hash,
        }
    }
}

} // verus!
