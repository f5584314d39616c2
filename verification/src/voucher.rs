use vstd::prelude::*;

verus! {

/// The vouchers: each base voucher is followed by the one that it is
/// upgraded to.
#[derive(Clone, Copy, Debug, PartialEq, Eq, Structural, Hash)]
pub enum Voucher {
    Overstock,
    OverstockPlus,

    ClearanceSale,
    Liquidation,

    Hone,
    GlowUp,

    RerollSurplus,
    RerollGlut,

    Telescope,
    OmenGlobe,

    CrystalBall,
    Observatory,

    Grabber,
    NachoTong,

    Wasteful,
    Recyclomancy,

    TarotMerchant,
    TarotTycoon,

    PlanetMerchant,
    PlanetTycoon,

    SeedMoney,
    MoneyTree,

    Blank,
    Antimatter,

    MagicTrick,
    Illusion,

    Hieroglyph,
    Petroglyph,

    DirectorsCut,
    Retcon,

    PaintBrush,
    Palette,
}

/// The vouchers that can be bought first.
pub const BASE_VOUCHERS: [Voucher; 16] = [
    Voucher::Overstock,
    Voucher::ClearanceSale,
    Voucher::Hone,
    Voucher::RerollSurplus,
    Voucher::Telescope,
    Voucher::CrystalBall,
    Voucher::Grabber,
    Voucher::Wasteful,
    Voucher::TarotMerchant,
    Voucher::PlanetMerchant,
    Voucher::SeedMoney,
    Voucher::Blank,
    Voucher::MagicTrick,
    Voucher::Hieroglyph,
    Voucher::DirectorsCut,
    Voucher::PaintBrush,
];

/// The upgrade of each base voucher, in the order of `BASE_VOUCHERS`.
pub const UPGRADED_VOUCHERS: [Voucher; 16] = [
    Voucher::OverstockPlus,
    Voucher::Liquidation,
    Voucher::GlowUp,
    Voucher::RerollGlut,
    Voucher::OmenGlobe,
    Voucher::Observatory,
    Voucher::NachoTong,
    Voucher::Recyclomancy,
    Voucher::TarotTycoon,
    Voucher::PlanetTycoon,
    Voucher::MoneyTree,
    Voucher::Antimatter,
    Voucher::Illusion,
    Voucher::Petroglyph,
    Voucher::Retcon,
    Voucher::Palette,
];

} // verus!
