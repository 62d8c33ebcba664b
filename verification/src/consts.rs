//! Sizes of the model's observation and action encodings.
use vstd::prelude::*;

verus! {

/// The newest observation encoding version.
pub const MAX_VERSION: u32 = 5;

pub const ACTION_RIICHI: usize = 37;
pub const ACTION_NUKIDORA: usize = 38;
pub const ACTION_PON: usize = 39;
pub const ACTION_KAN: usize = 40;
pub const ACTION_AGARI: usize = 41;
pub const ACTION_RYUKYOKU: usize = 42;
pub const ACTION_PASS: usize = 43;

/// 37 discard or kan tile choices, then riichi, nukidora, pon, kan decision, agari,
/// ryukyoku and pass.
pub const ACTION_SPACE: usize = 37 + 1 + 1 + 1 + 1 + 1 + 1 + 1;

pub const GRP_SIZE: usize = 7;

/// The GRP input size of a three-player game: grand kyoku, honba, kyotaku and three
/// scores.
pub const GRP_SANMA_SIZE: usize = 6;

/// The shape (channels, width) of the observation of each encoding version.
pub open spec fn spec_obs_shape(version: u32) -> (usize, usize) {
    if version == 1 {
        (936, 34)
    } else if version == 2 {
        (940, 34)
    } else if version == 3 {
        (932, 34)
    } else if version == 4 {
        (1010, 34)
    } else {
        // the three-player variant of version 4: no chi planes, and nukidora as an
        // action plane of its own
        (774, 34)
    }
}

/// The shape (channels, width) of the oracle observation of each encoding version.
pub open spec fn spec_oracle_obs_shape(version: u32) -> (usize, usize) {
    if version == 1 {
        (211, 34)
    } else if version <= 4 {
        (217, 34)
    } else {
        (170, 34)
    }
}

/// The observation shape of an encoding version between 1 and `MAX_VERSION`.
pub fn obs_shape(version: u32) -> (res: (usize, usize))
    requires
        1 <= version <= MAX_VERSION,
    ensures
        res == spec_obs_shape(version),
{
    match version {
        1 => (936, 34),
        2 => (940, 34),
        3 => (932, 34),
        4 => (1010, 34),
        _ => (774, 34),
    }
}

/// The oracle observation shape of an encoding version between 1 and `MAX_VERSION`.
pub fn oracle_obs_shape(version: u32) -> (res: (usize, usize))
    requires
        1 <= version <= MAX_VERSION,
    ensures
        res == spec_oracle_obs_shape(version),
{
    match version {
        1 => (211, 34),
        2 | 3 | 4 => (217, 34),
        _ => (170, 34),
    }
}

} // verus!
