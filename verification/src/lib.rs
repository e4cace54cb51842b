use vstd::prelude::*;

pub mod block;
pub mod blockchain;
pub mod codec;
pub mod errors;
pub mod hashes;
pub mod keys;
pub mod outputs;
pub mod transaction;
pub mod tx;
pub mod util;
pub mod utxoset;
pub mod wallet;

verus! {

/// Number of leading hex digits of a block hash that must be zero.
pub const TARGET_HEXS: usize = 4;

/// Reward paid by every coinbase transaction.
pub const SUBSIDY: i32 = 10;

} // verus!
