use card_game_ai::ante::get_base_score;
use card_game_ai::blind::{Blind, BossBlind, BOSS_BLINDS, FINISHER_BLINDS};
use card_game_ai::shop::BoosterPack;
use card_game_ai::stake::GameStake;

#[test]
fn base_score_by_ante_and_stake() {
    assert_eq!(get_base_score(0, &GameStake::White), 100);
    assert_eq!(get_base_score(0, &GameStake::Gold), 100);
    assert_eq!(get_base_score(1, &GameStake::White), 300);
    assert_eq!(get_base_score(1, &GameStake::Purple), 300);
    assert_eq!(get_base_score(2, &GameStake::White), 800);
    assert_eq!(get_base_score(2, &GameStake::Red), 800);
    assert_eq!(get_base_score(2, &GameStake::Green), 900);
    assert_eq!(get_base_score(2, &GameStake::Black), 900);
    assert_eq!(get_base_score(2, &GameStake::Blue), 900);
    assert_eq!(get_base_score(2, &GameStake::Purple), 1000);
    assert_eq!(get_base_score(2, &GameStake::Orange), 1000);
    assert_eq!(get_base_score(2, &GameStake::Gold), 1000);
    assert_eq!(get_base_score(3, &GameStake::Red), 2000);
    assert_eq!(get_base_score(3, &GameStake::Blue), 2600);
    assert_eq!(get_base_score(3, &GameStake::Gold), 3200);
    assert_eq!(get_base_score(4, &GameStake::White), 5000);
    assert_eq!(get_base_score(4, &GameStake::Green), 8000);
    assert_eq!(get_base_score(4, &GameStake::Orange), 9000);
    assert_eq!(get_base_score(5, &GameStake::White), 11000);
    assert_eq!(get_base_score(5, &GameStake::Black), 20000);
    assert_eq!(get_base_score(5, &GameStake::Purple), 25000);
    assert_eq!(get_base_score(6, &GameStake::White), 20000);
    assert_eq!(get_base_score(6, &GameStake::Green), 36000);
    assert_eq!(get_base_score(6, &GameStake::Gold), 60000);
    assert_eq!(get_base_score(7, &GameStake::Red), 35000);
    assert_eq!(get_base_score(7, &GameStake::Blue), 60000);
    assert_eq!(get_base_score(7, &GameStake::Gold), 110000);
    assert_eq!(get_base_score(8, &GameStake::White), 50000);
    assert_eq!(get_base_score(8, &GameStake::Green), 100000);
    assert_eq!(get_base_score(8, &GameStake::Gold), 200000);
    assert_eq!(get_base_score(9, &GameStake::White), 0);
    assert_eq!(get_base_score(255, &GameStake::Gold), 0);
}

#[test]
fn score_of_each_blind() {
    assert_eq!(Blind::Small.get_min_score(300), 300);
    assert_eq!(Blind::Big.get_min_score(300), 600);
    assert_eq!(Blind::Boss(BossBlind::Hook).get_min_score(300), 600);
    assert_eq!(Blind::Boss(BossBlind::Wall).get_min_score(300), 1200);
    assert_eq!(Blind::Boss(BossBlind::Needle).get_min_score(300), 300);
    assert_eq!(Blind::Boss(BossBlind::VioletVessel).get_min_score(300), 1800);
    assert_eq!(BossBlind::CeruleanBell.get_min_score(50000), 100000);
    assert_eq!(BossBlind::Needle.get_min_score(u32::MAX), u32::MAX);
    assert_eq!(BossBlind::Hook.get_min_score(0), 0);
}

#[test]
fn needle_asks_for_half_of_an_ordinary_boss() {
    for ante in 0..=9u8 {
        for stake in [GameStake::White, GameStake::Green, GameStake::Gold] {
            let base = get_base_score(ante, &stake);
            let needle = Blind::Boss(BossBlind::Needle).get_min_score(base);
            for boss in BOSS_BLINDS.iter().chain(FINISHER_BLINDS.iter()) {
                let ordinary = !matches!(
                    boss,
                    BossBlind::Wall | BossBlind::Needle | BossBlind::VioletVessel
                );
                if ordinary {
                    assert_eq!(2 * needle, Blind::Boss(*boss).get_min_score(base));
                }
            }
        }
    }
    assert_eq!(Blind::Boss(BossBlind::Needle).get_min_score(800), 800);
    assert_eq!(Blind::Boss(BossBlind::Ox).get_min_score(800), 1600);
}

#[test]
fn rewards_and_first_antes() {
    assert_eq!(Blind::Small.get_reward(), 3);
    assert_eq!(Blind::Big.get_reward(), 4);
    assert_eq!(Blind::Boss(BossBlind::Mark).get_reward(), 5);
    assert_eq!(Blind::Boss(BossBlind::AmberAcorn).get_reward(), 8);
    for boss in BOSS_BLINDS {
        assert_eq!(boss.get_reward(), 5);
    }
    for boss in FINISHER_BLINDS {
        assert_eq!(boss.get_reward(), 8);
        assert_eq!(boss.get_min_ante(), 7);
    }
    let first_antes: Vec<u8> = BOSS_BLINDS.iter().map(|boss| boss.get_min_ante()).collect();
    assert_eq!(
        first_antes,
        vec![0, 5, 2, 2, 2, 2, 1, 2, 1, 1, 2, 1, 1, 2, 2, 3, 4, 0, 2, 0, 2, 1, 1]
    );
    assert_eq!(Blind::Small.get_min_ante(), 0);
    assert_eq!(Blind::Big.get_min_ante(), 0);
    assert_eq!(Blind::Boss(BossBlind::Serpent).get_min_ante(), 4);
}

#[test]
fn random_boss_may_appear_at_its_ante() {
    for ante in 0..=40u8 {
        for _ in 0..20 {
            let boss = BossBlind::get_rand(ante);
            if ante % 8 == 0 {
                assert!(FINISHER_BLINDS.contains(&boss));
            } else {
                assert!(BOSS_BLINDS.contains(&boss));
                assert!(boss.get_min_ante() <= ante);
            }
        }
    }
}

#[test]
fn candidates_for_each_ante() {
    assert_eq!(BossBlind::candidates(8), FINISHER_BLINDS.to_vec());
    assert_eq!(BossBlind::candidates(0), FINISHER_BLINDS.to_vec());
    assert_eq!(
        BossBlind::candidates(1),
        vec![
            BossBlind::Hook,
            BossBlind::Club,
            BossBlind::Psychic,
            BossBlind::Goad,
            BossBlind::Window,
            BossBlind::Manacle,
            BossBlind::Pillar,
            BossBlind::Head,
            BossBlind::Flint,
            BossBlind::Mark,
        ]
    );
    assert_eq!(BossBlind::candidates(4).len(), 22);
    assert_eq!(BossBlind::candidates(5), BOSS_BLINDS.to_vec());
}

#[test]
fn cost_of_each_pack() {
    assert_eq!(BoosterPack::Standard.get_cost(), 4);
    assert_eq!(BoosterPack::StandardJumbo.get_cost(), 6);
    assert_eq!(BoosterPack::StandardMega.get_cost(), 8);
    assert_eq!(BoosterPack::Arcana.get_cost(), 4);
    assert_eq!(BoosterPack::JumboCelestial.get_cost(), 6);
    assert_eq!(BoosterPack::MegaBuffoon.get_cost(), 8);
    assert_eq!(BoosterPack::Spectral.get_cost(), 4);
    assert_eq!(BoosterPack::MegaSpectral.get_cost(), 8);
}
