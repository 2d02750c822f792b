use vstd::prelude::*;

use crate::state::{Amm, AmmError, AmmPool, CreateAmm, PoolAuthority, Pubkey, MAX_FEE_BPS};

verus! {

/// Creates the registry record of a pool family, with the given fee and the
/// administrator named in `accounts`.
pub fn create_amm(accounts: &CreateAmm, fee: u16, index: u16) -> (r: Result<Amm, AmmError>)
    ensures
        fee >= MAX_FEE_BPS <==> r == Err::<Amm, AmmError>(AmmError::InvalidFee),
        r.is_ok() <==> fee < MAX_FEE_BPS,
        r matches Ok(amm) ==> {
            &&& amm.wf()
            &&& amm.index == index
            &&& amm.fee == fee
            &&& amm.admin == accounts.admin_account
        },
{
    if fee >= MAX_FEE_BPS {
        return Err(AmmError::InvalidFee);
    }
    Ok(Amm { index, fee, admin: accounts.admin_account })
}

/// The custody handle of the pool that `amm` and the two assets name.
pub open spec fn derived_authority(amm: u16, mint_a: Pubkey, mint_b: Pubkey) -> PoolAuthority {
    PoolAuthority { amm, mint_a, mint_b }
}

/// Creates an empty pool for two distinct assets under the registry record `amm`.
pub fn create_pool(amm: &Amm, mint_a: Pubkey, mint_b: Pubkey) -> (r: Result<AmmPool, AmmError>)
    requires
        amm.wf(),
    ensures
        mint_a.bytes@ == mint_b.bytes@ <==> r == Err::<AmmPool, AmmError>(
            AmmError::MintAccountsAreEqual,
        ),
        r.is_ok() <==> mint_a.bytes@ != mint_b.bytes@,
        r matches Ok(pool) ==> {
            &&& pool.wf()
            &&& pool.amm == amm.index
            &&& pool.mint_a == mint_a
            &&& pool.mint_b == mint_b
            &&& pool.fee == amm.fee
            &&& pool.supply == 0
            &&& pool.authority == derived_authority(amm.index, mint_a, mint_b)
        },
{
    if mint_a == mint_b {
        return Err(AmmError::MintAccountsAreEqual);
    }
    let authority = PoolAuthority { amm: amm.index, mint_a, mint_b };
    Ok(AmmPool { amm: amm.index, mint_a, mint_b, fee: amm.fee, supply: 0, authority })
}

} // verus!
