use vstd::prelude::*;

verus! {

/// The difficulty setting of a run. Stakes are listed from the easiest to
/// the hardest.
#[derive(Clone, Copy, Debug, PartialEq, Eq, Structural, Hash)]
pub enum GameStake {
    White,
    Red,
    Green,
    Black,
    Blue,
    Purple,
    Orange,
    Gold,
}

impl GameStake {
    /// The column of the base-score table that this stake reads: 0, 1 or 2.
    pub open spec fn tier(self) -> nat {
        match self {
            GameStake::White | GameStake::Red => 0,
            GameStake::Green | GameStake::Black | GameStake::Blue => 1,
            GameStake::Purple | GameStake::Orange | GameStake::Gold => 2,
        }
    }
}

} // verus!
