use crate::stake::GameStake;
use vstd::prelude::*;

verus! {

/// The base score of an ante in the column `tier` of the table. The table
/// holds the antes 0 to 8; any later ante has a base score of 0.
pub open spec fn base_score(ante: nat, tier: nat) -> nat {
    if ante == 0 {
        100
    } else if ante == 1 {
        300
    } else if ante == 2 {
        if tier == 0 {
            800
        } else if tier == 1 {
            900
        } else {
            1000
        }
    } else if ante == 3 {
        if tier == 0 {
            2000
        } else if tier == 1 {
            2600
        } else {
            3200
        }
    } else if ante == 4 {
        if tier == 0 {
            5000
        } else if tier == 1 {
            8000
        } else {
            9000
        }
    } else if ante == 5 {
        if tier == 0 {
            11000
        } else if tier == 1 {
            20000
        } else {
            25000
        }
    } else if ante == 6 {
        if tier == 0 {
            20000
        } else if tier == 1 {
            36000
        } else {
            60000
        }
    } else if ante == 7 {
        if tier == 0 {
            35000
        } else if tier == 1 {
            60000
        } else {
            110000
        }
    } else if ante == 8 {
        if tier == 0 {
            50000
        } else if tier == 1 {
            100000
        } else {
            200000
        }
    } else {
        0
    }
}

/// The score that the small blind of `ante` asks for at `stake`; the other
/// blinds ask for a multiple of it.
pub fn get_base_score(ante: u8, stake: &GameStake) -> (score: u32)
    ensures
        score == base_score(ante as nat, stake.tier()),
        score <= 200000,
{
    let base_score: (u32, u32, u32) = match ante {
        0 => (100, 100, 100),
        1 => (300, 300, 300),
        2 => (800, 900, 1000),
        3 => (2000, 2600, 3200),
        4 => (5000, 8000, 9000),
        5 => (11000, 20000, 25000),
        6 => (20000, 36000, 60000),
        7 => (35000, 60000, 110000),
        8 => (50000, 100000, 200000),
        _ => (0, 0, 0),
    };
    match stake {
        GameStake::White => base_score.0,
        GameStake::Red => base_score.0,
        GameStake::Green => base_score.1,
        GameStake::Black => base_score.1,
        GameStake::Blue => base_score.1,
        GameStake::Purple => base_score.2,
        GameStake::Orange => base_score.2,
        GameStake::Gold => base_score.2,
    }
}

} // verus!
