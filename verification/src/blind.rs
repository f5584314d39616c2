use crate::chance::choose_from;
use vstd::prelude::*;

verus! {

/// The identity of a boss: first the bosses of an ordinary ante, then the
/// finishers that close every eighth ante.
#[derive(Clone, Copy, Debug, PartialEq, Eq, Structural, Hash)]
pub enum BossBlind {
    // Boss
    Hook,
    Ox,
    House,
    Wall,
    Wheel,
    Arm,
    Club,
    Fish,
    Psychic,
    Goad,
    Water,
    Window,
    Manacle,
    Eye,
    Mouth,
    Plant,
    Serpent,
    Pillar,
    Needle,
    Head,
    Tooth,
    Flint,
    Mark,
    // Finisher
    AmberAcorn,
    VerdantLeaf,
    VioletVessel,
    CrimsonHeart,
    CeruleanBell,
}

/// The bosses of an ordinary ante.
pub const BOSS_BLINDS: [BossBlind; 23] = [
    BossBlind::Hook,
    BossBlind::Ox,
    BossBlind::House,
    BossBlind::Wall,
    BossBlind::Wheel,
    BossBlind::Arm,
    BossBlind::Club,
    BossBlind::Fish,
    BossBlind::Psychic,
    BossBlind::Goad,
    BossBlind::Water,
    BossBlind::Window,
    BossBlind::Manacle,
    BossBlind::Eye,
    BossBlind::Mouth,
    BossBlind::Plant,
    BossBlind::Serpent,
    BossBlind::Pillar,
    BossBlind::Needle,
    BossBlind::Head,
    BossBlind::Tooth,
    BossBlind::Flint,
    BossBlind::Mark,
];

/// The bosses of every eighth ante.
pub const FINISHER_BLINDS: [BossBlind; 5] = [
    BossBlind::AmberAcorn,
    BossBlind::VerdantLeaf,
    BossBlind::VioletVessel,
    BossBlind::CrimsonHeart,
    BossBlind::CeruleanBell,
];

/// The bosses whose first ante is not after `ante`.
pub open spec fn met_by(ante: nat) -> spec_fn(BossBlind) -> bool {
    |boss: BossBlind| boss.min_ante() <= ante
}

impl BossBlind {
    /// Whether the boss closes an eighth ante.
    pub open spec fn is_finisher(self) -> bool {
        match self {
            BossBlind::AmberAcorn
            | BossBlind::VerdantLeaf
            | BossBlind::VioletVessel
            | BossBlind::CrimsonHeart
            | BossBlind::CeruleanBell => true,
            _ => false,
        }
    }

    /// The first ante at which the boss may be met.
    pub open spec fn min_ante(self) -> nat {
        match self {
            BossBlind::Hook | BossBlind::Pillar | BossBlind::Head => 0,
            BossBlind::Club
            | BossBlind::Psychic
            | BossBlind::Goad
            | BossBlind::Window
            | BossBlind::Manacle
            | BossBlind::Flint
            | BossBlind::Mark => 1,
            BossBlind::Plant => 3,
            BossBlind::Serpent => 4,
            BossBlind::Ox => 5,
            BossBlind::AmberAcorn
            | BossBlind::VerdantLeaf
            | BossBlind::VioletVessel
            | BossBlind::CrimsonHeart
            | BossBlind::CeruleanBell => 7,
            _ => 2,
        }
    }

    /// By how much the boss multiplies the base score: 4 for the Wall, 1 for
    /// the Needle, 6 for the Violet Vessel and 2 for every other boss.
    pub open spec fn score_factor(self) -> nat {
        match self {
            BossBlind::Wall => 4,
            BossBlind::Needle => 1,
            BossBlind::VioletVessel => 6,
            _ => 2,
        }
    }

    /// The money that beating the boss pays: 8 for a finisher, 5 for any
    /// other boss.
    pub open spec fn reward(self) -> nat {
        if self.is_finisher() {
            8
        } else {
            5
        }
    }

    /// Whether the boss may be drawn at `ante`: a finisher at every eighth
    /// ante, and at any other ante a boss that is no finisher and whose
    /// first ante has come.
    pub open spec fn may_appear_at(self, ante: nat) -> bool {
        if ante % 8 == 0 {
            self.is_finisher()
        } else {
            !self.is_finisher() && self.min_ante() <= ante
        }
    }

    /// Whether the boss may be drawn at `ante`.
    pub fn check_may_appear(&self, ante: u8) -> (may: bool)
        ensures
            may == self.may_appear_at(ante as nat),
    {
        let finisher = match self {
            BossBlind::AmberAcorn => true,
            BossBlind::VerdantLeaf => true,
            BossBlind::VioletVessel => true,
            BossBlind::CrimsonHeart => true,
            BossBlind::CeruleanBell => true,
            _ => false,
        };
        if ante % 8 == 0 {
            finisher
        } else {
            !finisher && self.get_min_ante() <= ante
        }
    }

    /// The bosses among which the boss of `ante` is drawn: the finishers at
    /// every eighth ante, and at any other ante the ordinary bosses whose
    /// first ante has come, in the order of `BOSS_BLINDS`.
    pub open spec fn spec_candidates(ante: nat) -> Seq<BossBlind> {
        if ante % 8 == 0 {
            FINISHER_BLINDS@
        } else {
            BOSS_BLINDS@.filter(met_by(ante))
        }
    }

    /// The bosses among which the boss of `ante` is drawn. There is always
    /// one.
    pub fn candidates(ante: u8) -> (list: Vec<BossBlind>)
        ensures
            list@ == Self::spec_candidates(ante as nat),
            list.len() > 0,
    {
        let mut list: Vec<BossBlind> = Vec::new();
        if ante % 8 == 0 {
            let mut i: usize = 0;
            while i < 5
                invariant
                    i <= 5,
                    list@ == FINISHER_BLINDS@.take(i as int),
                decreases 5 - i,
            {
                list.push(FINISHER_BLINDS[i]);
                assert(list@ =~= FINISHER_BLINDS@.take(i + 1));
                i += 1;
            }
            assert(FINISHER_BLINDS@.take(5) =~= FINISHER_BLINDS@);
            return list;
        }
        let ghost all = BOSS_BLINDS@;
        let mut i: usize = 0;
        proof {
            all.take(0).lemma_filter_len(met_by(ante as nat));
            assert(list@ =~= all.take(0).filter(met_by(ante as nat)));
        }
        while i < 23
            invariant
                i <= 23,
                all == BOSS_BLINDS@,
                list@ == all.take(i as int).filter(met_by(ante as nat)),
                i > 0 ==> list.len() > 0,
            decreases 23 - i,
        {
            let blind = BOSS_BLINDS[i];
            proof {
                all.lemma_take_succ_push(i as int);
                all.take(i as int).lemma_filter_push(all[i as int], met_by(ante as nat));
            }
            if blind.get_min_ante() <= ante {
                list.push(blind);
            }
            i += 1;
        }
        proof {
            assert(all.take(23) =~= all);
        }
        list
    }

    /// A boss for `ante`, drawn at random among the candidates for it.
    pub fn get_rand(ante: u8) -> (boss: Self)
        ensures
            Self::spec_candidates(ante as nat).contains(boss),
            boss.may_appear_at(ante as nat),
    {
        let available_boss_blinds = Self::candidates(ante);
        proof {
            lemma_candidates_may_appear(ante as nat);
        }
        match choose_from(available_boss_blinds.as_slice()) {
            Some(boss) => boss,
            None => available_boss_blinds[0],
        }
    }

    /// The money that beating the boss pays.
    pub fn get_reward(&self) -> (reward: u32)
        ensures
            reward == self.reward(),
    {
        match self {
            BossBlind::Hook => 5,
            BossBlind::Ox => 5,
            BossBlind::House => 5,
            BossBlind::Wall => 5,
            BossBlind::Wheel => 5,
            BossBlind::Arm => 5,
            BossBlind::Club => 5,
            BossBlind::Fish => 5,
            BossBlind::Psychic => 5,
            BossBlind::Goad => 5,
            BossBlind::Water => 5,
            BossBlind::Window => 5,
            BossBlind::Manacle => 5,
            BossBlind::Eye => 5,
            BossBlind::Mouth => 5,
            BossBlind::Plant => 5,
            BossBlind::Serpent => 5,
            BossBlind::Pillar => 5,
            BossBlind::Needle => 5,
            BossBlind::Head => 5,
            BossBlind::Tooth => 5,
            BossBlind::Flint => 5,
            BossBlind::Mark => 5,
            BossBlind::AmberAcorn => 8,
            BossBlind::VerdantLeaf => 8,
            BossBlind::VioletVessel => 8,
            BossBlind::CrimsonHeart => 8,
            BossBlind::CeruleanBell => 8,
        }
    }

    /// The score that the boss asks for when the base score is
    /// `base_score`. The product must fit the result.
    pub fn get_min_score(&self, base_score: u32) -> (score: u32)
        requires
            base_score * self.score_factor() <= u32::MAX,
        ensures
            score == base_score * self.score_factor(),
    {
        match self {
            BossBlind::Hook => base_score * 2,
            BossBlind::Ox => base_score * 2,
            BossBlind::House => base_score * 2,
            BossBlind::Wall => base_score * 4,  // x4
            BossBlind::Wheel => base_score * 2,
            BossBlind::Arm => base_score * 2,
            BossBlind::Club => base_score * 2,
            BossBlind::Fish => base_score * 2,
            BossBlind::Psychic => base_score * 2,
            BossBlind::Goad => base_score * 2,
            BossBlind::Water => base_score * 2,
            BossBlind::Window => base_score * 2,
            BossBlind::Manacle => base_score * 2,
            BossBlind::Eye => base_score * 2,
            BossBlind::Mouth => base_score * 2,
            BossBlind::Plant => base_score * 2,
            BossBlind::Serpent => base_score * 2,
            BossBlind::Pillar => base_score * 2,
            BossBlind::Needle => base_score * 1,  // x1
            BossBlind::Head => base_score * 2,
            BossBlind::Tooth => base_score * 2,
            BossBlind::Flint => base_score * 2,
            BossBlind::Mark => base_score * 2,
            BossBlind::AmberAcorn => base_score * 2,
            BossBlind::VerdantLeaf => base_score * 2,
            BossBlind::VioletVessel => base_score * 6,  // x6
            BossBlind::CrimsonHeart => base_score * 2,
            BossBlind::CeruleanBell => base_score * 2,
        }
    }

    /// The first ante at which the boss may be met.
    pub fn get_min_ante(&self) -> (ante: u8)
        ensures
            ante == self.min_ante(),
    {
        match self {
            BossBlind::Hook => 0,
            BossBlind::Ox => 5,
            BossBlind::House => 2,
            BossBlind::Wall => 2,
            BossBlind::Wheel => 2,
            BossBlind::Arm => 2,
            BossBlind::Club => 1,
            BossBlind::Fish => 2,
            BossBlind::Psychic => 1,
            BossBlind::Goad => 1,
            BossBlind::Water => 2,
            BossBlind::Window => 1,
            BossBlind::Manacle => 1,
            BossBlind::Eye => 2,
            BossBlind::Mouth => 2,
            BossBlind::Plant => 3,
            BossBlind::Serpent => 4,
            BossBlind::Pillar => 0,
            BossBlind::Needle => 2,
            BossBlind::Head => 0,
            BossBlind::Tooth => 2,
            BossBlind::Flint => 1,
            BossBlind::Mark => 1,
            BossBlind::AmberAcorn => 7,
            BossBlind::VerdantLeaf => 7,
            BossBlind::VioletVessel => 7,
            BossBlind::CrimsonHeart => 7,
            BossBlind::CeruleanBell => 7,
        }
    }
}

/// One of the three blinds of an ante. The boss blind shows which boss is
/// faced.
#[derive(Clone, Copy, Debug, PartialEq, Eq, Structural, Hash)]
pub enum Blind {
    Small,
    Big,
    Boss(BossBlind),
}

impl Blind {
    /// The first ante at which the blind may be met.
    pub open spec fn min_ante(self) -> nat {
        match self {
            Blind::Small => 0,
            Blind::Big => 0,
            Blind::Boss(boss) => boss.min_ante(),
        }
    }

    /// By how much the blind multiplies the base score: 1 for the small
    /// blind, 2 for the big blind, the boss's own factor for a boss.
    pub open spec fn score_factor(self) -> nat {
        match self {
            Blind::Small => 1,
            Blind::Big => 2,
            Blind::Boss(boss) => boss.score_factor(),
        }
    }

    /// The score that the blind asks for when the base score is
    /// `base_score`.
    pub open spec fn min_score(self, base_score: nat) -> nat {
        base_score * self.score_factor()
    }

    /// The money that beating the blind pays.
    pub open spec fn reward(self) -> nat {
        match self {
            Blind::Small => 3,
            Blind::Big => 4,
            Blind::Boss(boss) => boss.reward(),
        }
    }

    /// The first ante at which the blind may be met.
    pub fn get_min_ante(&self) -> (ante: u8)
        ensures
            ante == self.min_ante(),
    {
        match self {
            Blind::Small => 0,
            Blind::Big => 0,
            Blind::Boss(boss) => boss.get_min_ante(),
        }
    }

    /// The score that the blind asks for when the base score is
    /// `base_score`. The product must fit the result.
    pub fn get_min_score(&self, base_score: u32) -> (score: u32)
        requires
            self.min_score(base_score as nat) <= u32::MAX,
        ensures
            score == self.min_score(base_score as nat),
    {
        match self {
            Blind::Small => base_score * 1,
            Blind::Big => base_score * 2,
            Blind::Boss(boss) => boss.get_min_score(base_score),
        }
    }

    /// The money that beating the blind pays.
    pub fn get_reward(&self) -> (reward: u32)
        ensures
            reward == self.reward(),
    {
        match self {
            Blind::Small => 3,
            Blind::Big => 4,
            Blind::Boss(boss) => boss.get_reward(),
        }
    }
}

/// The Needle asks for half of what a boss with the usual factor of 2 asks
/// for at the same base score.
pub proof fn lemma_needle_halves_boss_score(base_score: nat, other: BossBlind)
    requires
        other.score_factor() == 2,
    ensures
        2 * Blind::Boss(BossBlind::Needle).min_score(base_score) == Blind::Boss(other).min_score(
            base_score,
        ),
{
    assert(2 * (base_score * 1) == base_score * 2) by (nonlinear_arith);
}

/// Every candidate for an ante may appear at it.
pub proof fn lemma_candidates_may_appear(ante: nat)
    ensures
        forall|boss: BossBlind|
            BossBlind::spec_candidates(ante).contains(boss) ==> boss.may_appear_at(ante),
{
    assert forall|boss: BossBlind|
        BossBlind::spec_candidates(ante).contains(boss) implies boss.may_appear_at(ante) by {
        let list = BossBlind::spec_candidates(ante);
        let k = list.index_of(boss);
        if ante % 8 == 0 {
            assert(FINISHER_BLINDS@[k].is_finisher());
        } else {
            BOSS_BLINDS@.lemma_filter_contains_rev(met_by(ante), boss);
            BOSS_BLINDS@.lemma_filter_pred(met_by(ante), k);
            let j = BOSS_BLINDS@.index_of(boss);
            assert(!BOSS_BLINDS@[j].is_finisher());
        }
    }
}

} // verus!
