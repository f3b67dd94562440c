use vstd::prelude::*;

verus! {

/// Height of the first block that belongs to round 0.
pub const START_HEIGHT: u64 = 4;

/// Number of blocks in one round.
pub const ROUND_PERIOD: u64 = 10;

/// One minting band: rounds in `(start_round, end_round]` mint
/// `total_distribute_amount / (end_round - start_round)` per round.
#[derive(Debug, Clone, PartialEq, Eq)]
pub struct Period {
    pub id: u8,
    pub start_round: u64,
    pub end_round: u64,
    pub total_distribute_amount: u128,
    pub distribute_amount_per_round: u128,
}

/// The round that a block height falls in, or `None` before round 0 starts.
pub open spec fn round_of(height: u64) -> Option<u64> {
    if height < START_HEIGHT {
        None
    } else {
        Some((((height - START_HEIGHT) as int) / (ROUND_PERIOD as int)) as u64)
    }
}

/// Round index for a block height: `None` before the first round has
/// started, otherwise the number of whole periods since the start.
pub fn get_round(height: u64) -> (r: Option<u64>)
    ensures
        r == round_of(height),
{
    if height < START_HEIGHT {
        None
    } else {
        Some((height - START_HEIGHT) / ROUND_PERIOD)
    }
}

/// Whether `round` falls in the band `(start, end]`.
pub open spec fn in_band(round: u64, start: u64, end: u64) -> bool {
    start < round && round <= end
}

/// The fixed minting schedule: `(id, start_round, end_round, total)` bands,
/// as `band_total(id)` for ids 1 to 4.
pub open spec fn band_total(id: u8) -> u128 {
    if id == 1 {
        400_000_000u128
    } else if id == 2 {
        300_000_000u128
    } else if id == 3 {
        200_000_000u128
    } else {
        100_000_000u128
    }
}

/// Start round of the band with the given id (bands are 365 rounds long).
pub open spec fn band_start(id: u8) -> u64 {
    if id == 1 {
        0u64
    } else if id == 2 {
        365u64
    } else if id == 3 {
        730u64
    } else {
        1095u64
    }
}

/// End round of the band with the given id.
pub open spec fn band_end(id: u8) -> u64 {
    if id == 1 {
        365u64
    } else if id == 2 {
        730u64
    } else if id == 3 {
        1095u64
    } else {
        1460u64
    }
}

/// The `Period` value for a band id.
pub open spec fn band_period(id: u8) -> Period {
    Period {
        id,
        start_round: band_start(id),
        end_round: band_end(id),
        total_distribute_amount: band_total(id),
        distribute_amount_per_round: (band_total(id) as int / (band_end(id) - band_start(id)) as int) as u128,
    }
}

/// The minting band a round falls in: the first band whose round range
/// contains it; `None` past all bands.
pub open spec fn round_period_of(round: u64) -> Option<Period> {
    if in_band(round, band_start(1), band_end(1)) {
        Some(band_period(1))
    } else if in_band(round, band_start(2), band_end(2)) {
        Some(band_period(2))
    } else if in_band(round, band_start(3), band_end(3)) {
        Some(band_period(3))
    } else if in_band(round, band_start(4), band_end(4)) {
        Some(band_period(4))
    } else {
        None
    }
}

/// The minting band of a height: the band of the height's round; `None`
/// before round 0 or past all bands.
pub open spec fn period_of(height: u64) -> Option<Period> {
    match round_of(height) {
        None => None,
        Some(round) => round_period_of(round),
    }
}

/// Minting band for a round index.  `None` means the caller must fall
/// back to distributing the balance it already holds instead of minting.
pub fn get_round_period(round: u64) -> (p: Option<Period>)
    ensures
        p == round_period_of(round),
{
    if 0 < round && round <= 365 {
        Some(Period {
            id: 1,
            start_round: 0,
            end_round: 365,
            total_distribute_amount: 400_000_000,
            distribute_amount_per_round: 400_000_000 / 365,
        })
    } else if 365 < round && round <= 730 {
        Some(Period {
            id: 2,
            start_round: 365,
            end_round: 730,
            total_distribute_amount: 300_000_000,
            distribute_amount_per_round: 300_000_000 / 365,
        })
    } else if 730 < round && round <= 1095 {
        Some(Period {
            id: 3,
            start_round: 730,
            end_round: 1095,
            total_distribute_amount: 200_000_000,
            distribute_amount_per_round: 200_000_000 / 365,
        })
    } else if 1095 < round && round <= 1460 {
        Some(Period {
            id: 4,
            start_round: 1095,
            end_round: 1460,
            total_distribute_amount: 100_000_000,
            distribute_amount_per_round: 100_000_000 / 365,
        })
    } else {
        None
    }
}

/// Minting band for a block height.  `None` means the caller must fall back
/// to distributing the balance it already holds instead of minting.
pub fn get_period(height: u64) -> (p: Option<Period>)
    ensures
        p == period_of(height),
{
    match get_round(height) {
        None => None,
        Some(round) => get_round_period(round),
    }
}

} // verus!
