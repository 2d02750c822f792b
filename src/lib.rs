//! Accounting and pricing engine of a two-asset constant-product liquidity
//! pool: registry records, pool creation, issuance and redemption of pool
//! shares, and swaps with a basis-point fee taken from the input. The engine
//! computes the deltas; moving balances is left to the ledger that calls it.

pub mod math;
pub mod state;
pub mod create;
pub mod fee;
pub mod swap;
pub mod liquidity;
pub mod laws;

pub use create::{create_amm, create_pool};
pub use liquidity::{add_liquidity, withdraw_liquidity, AddLiquidity, Withdrawal};
pub use state::{Amm, AmmError, AmmPool, CreateAmm, PoolAuthority, Pubkey, Reserves};
pub use swap::swap;
