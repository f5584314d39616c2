pub mod ante;
pub mod blind;
pub mod card;
pub mod chance;
pub mod consumable;
pub mod counting;
pub mod deck;
pub mod game;
pub mod groups;
pub mod hand;
pub mod hand_facts;
pub mod joker;
pub mod pairing;
pub mod pools;
pub mod scoring;
pub mod shop;
pub mod stake;
pub mod straight;
pub mod strategy;
pub mod voucher;

pub use crate::deck::GameStartingDeck;
pub use crate::game::{GameOptions, GamePhase, GameState, HandResult, PlayerMoney};
pub use crate::hand::ChipsAndMult;
pub use crate::shop::{BoosterPack, GameShopState, SaleCard};
