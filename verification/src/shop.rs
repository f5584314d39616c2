use crate::consumable::Consumable;
use crate::joker::JokerCard;
use crate::voucher::Voucher;
use vstd::prelude::*;

verus! {

/// The packs that the shop sells, each in three sizes.
#[derive(Clone, Copy, Debug, PartialEq, Eq, Structural, Hash)]
pub enum BoosterPack {
    Standard,
    StandardJumbo,
    StandardMega,
    Arcana,
    JumboArcana,
    MegaArcana,
    Celestial,
    JumboCelestial,
    MegaCelestial,
    Buffoon,
    JumboBuffoon,
    MegaBuffoon,
    Spectral,
    JumboSpectral,
    MegaSpectral,
}

impl BoosterPack {
    /// The price of the pack by its size: 4 for a pack of the ordinary size,
    /// 6 for a jumbo pack and 8 for a mega pack.
    pub open spec fn cost(self) -> nat {
        match self {
            BoosterPack::Standard
            | BoosterPack::Arcana
            | BoosterPack::Celestial
            | BoosterPack::Buffoon
            | BoosterPack::Spectral => 4,
            BoosterPack::StandardJumbo
            | BoosterPack::JumboArcana
            | BoosterPack::JumboCelestial
            | BoosterPack::JumboBuffoon
            | BoosterPack::JumboSpectral => 6,
            _ => 8,
        }
    }

    /// The price of the pack.
    pub fn get_cost(&self) -> (cost: u8)
        ensures
            cost == self.cost(),
    {
        match self {
            BoosterPack::Standard => 4,
            BoosterPack::StandardJumbo => 6,
            BoosterPack::StandardMega => 8,
            BoosterPack::Arcana => 4,
            BoosterPack::JumboArcana => 6,
            BoosterPack::MegaArcana => 8,
            BoosterPack::Celestial => 4,
            BoosterPack::JumboCelestial => 6,
            BoosterPack::MegaCelestial => 8,
            BoosterPack::Buffoon => 4,
            BoosterPack::JumboBuffoon => 6,
            BoosterPack::MegaBuffoon => 8,
            BoosterPack::Spectral => 4,
            BoosterPack::JumboSpectral => 6,
            BoosterPack::MegaSpectral => 8,
        }
    }
}

/// A card that the shop offers.
#[derive(Clone, Copy, Debug)]
pub enum SaleCard {
    Joker(JokerCard),
    Consumable(Consumable),
}

/// What the shop offers.
pub struct GameShopState {
    pub cards: Vec<SaleCard>,
    pub vouchers: Vec<Voucher>,
}

} // verus!
