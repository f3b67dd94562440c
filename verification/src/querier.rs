use vstd::prelude::*;
use crate::fixed::{ratio_floor, mul_ratio_floor, decimal_from_ratio, decimal_mul_floor};

verus! {

/// Routing envelope of a chain-level query the surrounding driver sends.
#[derive(Debug, Clone, PartialEq, Eq)]
pub struct TendermintQueryWrapper {
    pub route: TendermintRoute,
    pub query_data: TendermintQuery,
}

/// Chain-level queries the modules rely on at their edge.
#[derive(Debug, Clone, PartialEq, Eq)]
pub enum TendermintQuery {
    BlockInfo { height: u64 },
    TaxRate,
}

/// Which chain module answers the query.
#[derive(Debug, Clone, PartialEq, Eq)]
pub enum TendermintRoute {
    Tendermint,
    Oracle,
}

/// Answer to a block-info query: the block's identifier.
#[derive(Debug, Clone, PartialEq, Eq)]
pub struct BlockInfoResposne {
    pub block_id: Block,
}

/// A block identifier, carried as its hash string.
#[derive(Debug, Clone, PartialEq, Eq)]
pub struct Block {
    pub hash: String,
}

/// Value of a token amount in the quote asset, at the spot price of a
/// swap pool: the pool's quote reserve over its token reserve, floored
/// to ratio atomics, then applied to the amount, floored again.  The
/// reserves come from a pool query the driver makes.
pub fn token_to_ust(amount: u128, token_reserve: u128, quote_reserve: u128) -> (r: u128)
    requires
        token_reserve != 0,
        ratio_floor(quote_reserve as int, token_reserve as int) <= u128::MAX,
        mul_ratio_floor(
            amount as int,
            ratio_floor(quote_reserve as int, token_reserve as int),
        ) <= u128::MAX,
    ensures
        r as int == mul_ratio_floor(
            amount as int,
            ratio_floor(quote_reserve as int, token_reserve as int),
        ),
{
    let weight = decimal_from_ratio(quote_reserve, token_reserve);
    decimal_mul_floor(amount, weight)
}

} // verus!
