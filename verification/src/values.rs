//! Plain fixed-width values of the ledger: 20-byte addresses, 256-bit words
//! and 32-byte digests, held as machine integers so that equality is
//! structural and no well-formedness condition has to travel with them.
use vstd::prelude::*;

verus! {

/// A 20-byte account address in big-endian order: the leading four bytes in
/// `hi`, the remaining sixteen in `lo`.
#[derive(Clone, Copy, PartialEq, Eq, Structural, Debug, Hash)]
pub struct Address {
    pub hi: u32,
    pub lo: u128,
}

/// A 256-bit unsigned word (balance, storage key, storage value), as four
/// 64-bit limbs, least significant first.
#[derive(Clone, Copy, PartialEq, Eq, Structural, Debug, Hash)]
pub struct Uint256 {
    pub l0: u64,
    pub l1: u64,
    pub l2: u64,
    pub l3: u64,
}

/// A 32-byte digest (a code hash, a block hash) in big-endian order: the
/// leading sixteen bytes in `hi`, the remaining sixteen in `lo`.
#[derive(Clone, Copy, PartialEq, Eq, Structural, Debug, Hash)]
pub struct Hash256 {
    pub hi: u128,
    pub lo: u128,
}

impl Address {
    /// The address as a number below 2^160.
    pub open spec fn value(self) -> nat {
        (self.hi * 0x1_0000_0000_0000_0000_0000_0000_0000_0000 + self.lo) as nat
    }

    pub fn zero() -> (r: Self)
        ensures
            r.hi == 0 && r.lo == 0,
    {
        Address { hi: 0, lo: 0 }
    }
}

impl Uint256 {
    /// The word as a number below 2^256.
    pub open spec fn value(self) -> nat {
        (self.l0 + self.l1 * 0x1_0000_0000_0000_0000 + self.l2
            * 0x1_0000_0000_0000_0000_0000_0000_0000_0000 + self.l3
            * 0x1_0000_0000_0000_0000_0000_0000_0000_0000_0000_0000_0000_0000) as nat
    }

    pub fn zero() -> (r: Self)
        ensures
            r == (Uint256 { l0: 0, l1: 0, l2: 0, l3: 0 }),
            r.value() == 0,
    {
        Uint256 { l0: 0, l1: 0, l2: 0, l3: 0 }
    }

    pub fn from_u64(v: u64) -> (r: Self)
        ensures
            r == (Uint256 { l0: v, l1: 0, l2: 0, l3: 0 }),
            r.value() == v,
    {
        Uint256 { l0: v, l1: 0, l2: 0, l3: 0 }
    }

    /// The four limbs, least significant first, for handing to the engine.
    pub fn limbs(&self) -> (r: [u64; 4])
        ensures
            r@ == seq![self.l0, self.l1, self.l2, self.l3],
    {
        let r = [self.l0, self.l1, self.l2, self.l3];
        proof {
            assert(r@ =~= seq![self.l0, self.l1, self.l2, self.l3]);
        }
        r
    }

    pub fn from_limbs(l: [u64; 4]) -> (r: Self)
        ensures
            r == (Uint256 { l0: l@[0], l1: l@[1], l2: l@[2], l3: l@[3] }),
    {
        Uint256 { l0: l[0], l1: l[1], l2: l[2], l3: l[3] }
    }

    pub open spec fn is_zero_spec(self) -> bool {
        self.l0 == 0 && self.l1 == 0 && self.l2 == 0 && self.l3 == 0
    }

    pub fn is_zero(&self) -> (r: bool)
        ensures
            r == self.is_zero_spec(),
    {
        self.l0 == 0 && self.l1 == 0 && self.l2 == 0 && self.l3 == 0
    }
}

impl Hash256 {
    /// The digest as a number below 2^256.
    pub open spec fn value(self) -> nat {
        (self.hi * 0x1_0000_0000_0000_0000_0000_0000_0000_0000 + self.lo) as nat
    }

    pub fn zero() -> (r: Self)
        ensures
            r.hi == 0 && r.lo == 0,
    {
        Hash256 { hi: 0, lo: 0 }
    }
}

/// A historical pin for a remote-backed store: the latest block, a block
/// number, or a block hash.
#[derive(Clone, Copy, PartialEq, Eq, Structural, Debug)]
pub enum BlockPin {
    Latest,
    Number(u64),
    Hash(Hash256),
}

} // verus!
