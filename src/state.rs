use vstd::prelude::*;

verus! {

/// Fees are counted in basis points: units of 1/10000.
pub const BPS_DENOMINATOR: u64 = 10000;

/// Every fee must be strictly below this many basis points.
pub const MAX_FEE_BPS: u16 = 10000;

/// A 32-byte account identity, as the ledger names assets and administrators.
#[derive(Clone, Copy, Debug)]
pub struct Pubkey {
    pub bytes: [u8; 32],
}

impl PartialEq for Pubkey {
    fn eq(&self, o: &Pubkey) -> (r: bool) {
        let mut i: usize = 0;
        while i < 32
            invariant
                0 <= i <= 32,
                forall|j: int| 0 <= j < i ==> self.bytes@[j] == o.bytes@[j],
            decreases 32 - i,
        {
            if self.bytes[i] != o.bytes[i] {
                return false;
            }
            i = i + 1;
        }
        proof {
            assert(self.bytes@ =~= o.bytes@);
        }
        true
    }
}

impl vstd::std_specs::cmp::PartialEqSpecImpl for Pubkey {
    open spec fn obeys_eq_spec() -> bool {
        true
    }

    open spec fn eq_spec(&self, o: &Pubkey) -> bool {
        self.bytes@ == o.bytes@
    }
}

impl Eq for Pubkey {}

/// The registry record of one pool family: its fee and its administrator.
#[derive(Clone, Copy, Debug)]
pub struct Amm {
    pub index: u16,
    pub fee: u16,
    pub admin: Pubkey,
}

impl Amm {
    pub open spec fn wf(&self) -> bool {
        self.fee < MAX_FEE_BPS
    }
}

/// What `create_amm` reads besides its arguments: the administrator to record.
#[derive(Clone, Copy, Debug)]
pub struct CreateAmm {
    pub admin_account: Pubkey,
}

/// The custody handle of a pool, derived from the identifiers that name it.
/// It scopes the pool's reserves at the ledger and carries no privilege of its own.
#[derive(Clone, Copy, Debug)]
pub struct PoolAuthority {
    pub amm: u16,
    pub mint_a: Pubkey,
    pub mint_b: Pubkey,
}

/// A two-asset pool. Its reserves are held by the ledger; `supply` counts the
/// pool shares in circulation. The fee is the one of the registry record the
/// pool was created under, which never changes afterwards.
#[derive(Clone, Copy, Debug)]
pub struct AmmPool {
    pub amm: u16,
    pub mint_a: Pubkey,
    pub mint_b: Pubkey,
    pub fee: u16,
    pub supply: u64,
    pub authority: PoolAuthority,
}

impl AmmPool {
    pub open spec fn wf(&self) -> bool {
        &&& self.mint_a.bytes@ != self.mint_b.bytes@
        &&& self.fee < MAX_FEE_BPS
    }
}

/// The pool's two reserve balances, as the ledger reports them.
#[derive(Clone, Copy, Debug, PartialEq, Eq, Structural)]
pub struct Reserves {
    pub a: u64,
    pub b: u64,
}

/// Every way an operation can be refused. A refused operation changes nothing.
#[derive(Clone, Copy, Debug, PartialEq, Eq, Structural)]
pub enum AmmError {
    InvalidFee,
    MintAccountsAreEqual,
    AmountIsZero,
    InsufficientBalance,
    InvalidPoolState,
    MathOverflow,
    LpIsZero,
    SlippageExceeded,
}

} // verus!
