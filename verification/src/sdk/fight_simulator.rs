use vstd::prelude::*;

verus! {

/// The outcome of a fight.
#[derive(Debug, Clone, Copy, PartialEq, Eq, Structural)]
pub enum FightResult {
    Win,
    Loss,
}

/// A simulated fight: the turns it lasted, the hit points left to the character,
/// its outcome and the cooldown it costs.
#[derive(Debug, Clone, Copy, PartialEq, Eq, Structural)]
pub struct Fight {
    pub turns: i32,
    pub hp_left: i32,
    pub result: FightResult,
    pub cd: i32,
}

/// Simulates fights and gathering cooldowns.
pub struct FightSimulator {}

/// `x` clamped to the range of `i32`.
pub open spec fn clamp_i32(x: int) -> int {
    if x < i32::MIN {
        i32::MIN as int
    } else if x > i32::MAX {
        i32::MAX as int
    } else {
        x
    }
}

/// `x / d` rounded to the nearest integer, halves away from zero.
pub open spec fn round_div(x: int, d: int) -> int {
    if x >= 0 {
        (x + d / 2) / d
    } else {
        -((-x + d / 2) / d)
    }
}

/// `x / d` rounded up.
pub open spec fn ceil_div(x: int, d: int) -> int {
    -((-x) / d)
}

/// The turns of a fight from turn `turn` on, the character having `hp` hit points
/// and the monster `monster_hp`; the character strikes on odd turns for
/// `damage_to_monster`, the monster on even turns for `damage_from_monster`; the
/// fight ends when one side falls to 0 or after turn 100. Gives the last turn and the
/// character's hit points then.
pub open spec fn fight_turns(turn: int, hp: int, monster_hp: int, damage_to_monster: int, damage_from_monster: int) -> (
    int,
    int,
)
    decreases 101 - turn,
{
    if turn > 100 {
        (turn, hp)
    } else if turn % 2 == 1 {
        if monster_hp - damage_to_monster <= 0 {
            (turn, hp)
        } else {
            fight_turns(turn + 1, hp, monster_hp - damage_to_monster, damage_to_monster, damage_from_monster)
        }
    } else {
        if hp - damage_from_monster <= 0 {
            (turn, hp - damage_from_monster)
        } else {
            fight_turns(turn + 1, hp - damage_from_monster, monster_hp, damage_to_monster, damage_from_monster)
        }
    }
}

pub open spec fn fits_i32(x: int) -> bool {
    i32::MIN <= x <= i32::MAX
}

/// Every hit point count reached along the fight fits in an `i32`.
pub open spec fn fight_fits(turn: int, hp: int, monster_hp: int, damage_to_monster: int, damage_from_monster: int) -> bool
    decreases 101 - turn,
{
    if turn > 100 {
        true
    } else if turn % 2 == 1 {
        fits_i32(monster_hp - damage_to_monster) && (monster_hp - damage_to_monster <= 0
            || fight_fits(turn + 1, hp, monster_hp - damage_to_monster, damage_to_monster, damage_from_monster))
    } else {
        fits_i32(hp - damage_from_monster) && (hp - damage_from_monster <= 0 || fight_fits(
            turn + 1,
            hp - damage_from_monster,
            monster_hp,
            damage_to_monster,
            damage_from_monster,
        ))
    }
}

/// The character's hit points at the start of a fight.
pub open spec fn starting_hp(level: int, health_increase: int, missing_hp: int) -> int {
    115 + 5 * level + health_increase - missing_hp
}

/// The hit points before the fight, and each step of computing them, fit in an `i32`.
pub open spec fn start_fits(level: int, health_increase: int, missing_hp: int) -> bool {
    &&& fits_i32(5 * level)
    &&& fits_i32(115 + 5 * level)
    &&& fits_i32(115 + 5 * level + health_increase)
    &&& fits_i32(starting_hp(level, health_increase, missing_hp))
}

/// The cooldown of a fight of `turns` turns with `haste` percent of haste: two
/// seconds a turn, less the haste, rounded up, saturated to the range of `i32`. The
/// value is computed exactly, in integers: single-precision floating point, which
/// cannot represent a hundredth exactly, can round up once more where the exact value
/// is a whole number (5 turns at 60 percent of haste give 4 here).
pub open spec fn fight_cooldown(turns: int, haste: int) -> int {
    clamp_i32(ceil_div(2 * turns * (100 - haste), 100))
}

/// The simulated fight.
pub open spec fn simulated_fight(
    level: int,
    missing_hp: int,
    health_increase: int,
    monster_hp: int,
    damage_to_monster: int,
    damage_from_monster: int,
    haste: int,
) -> Fight {
    let (turns, hp) = fight_turns(
        1,
        starting_hp(level, health_increase, missing_hp),
        monster_hp,
        damage_to_monster,
        damage_from_monster,
    );
    Fight {
        turns: turns as i32,
        hp_left: hp as i32,
        result: if hp > 0 {
            FightResult::Win
        } else {
            FightResult::Loss
        },
        cd: fight_cooldown(turns, haste) as i32,
    }
}

/// The gathering cooldown: 25 seconds less a tenth of a second for each level the
/// skill has above the resource, scaled by the cooldown reduction percentage, rounded
/// to the nearest second, halves away from zero, saturated to the range of `i32`. The
/// value is computed exactly, in integers: single-precision floating point can fall
/// on the other side of a half where the exact value is one (a skill level equal to
/// the resource's with 6 percent of reduction gives 26.5, rounded here to 27).
pub open spec fn gather_cooldown(skill_level: int, ressource_level: int, cooldown_reduction: int) -> int {
    clamp_i32(
        round_div((250 - (skill_level - ressource_level)) * (100 + cooldown_reduction), 1000),
    )
}

proof fn lemma_fight_turns_bounds(turn: int, hp: int, monster_hp: int, to: int, from: int)
    requires
        1 <= turn <= 101,
    ensures
        turn <= fight_turns(turn, hp, monster_hp, to, from).0 <= 101,
        turn > 100 ==> fight_turns(turn, hp, monster_hp, to, from).0 == turn,
    decreases 101 - turn,
{
    if turn <= 100 {
        if turn % 2 == 1 {
            if monster_hp - to > 0 {
                lemma_fight_turns_bounds(turn + 1, hp, monster_hp - to, to, from);
            }
        } else {
            if hp - from > 0 {
                lemma_fight_turns_bounds(turn + 1, hp - from, monster_hp, to, from);
            }
        }
    }
}

/// The character's hit points at the end of a fight fit in an `i32` when those
/// reached along it do.
proof fn lemma_fight_hp_fits(turn: int, hp: int, monster_hp: int, to: int, from: int)
    requires
        fits_i32(hp),
        fight_fits(turn, hp, monster_hp, to, from),
    ensures
        fits_i32(fight_turns(turn, hp, monster_hp, to, from).1),
    decreases 101 - turn,
{
    if turn <= 100 {
        if turn % 2 == 1 {
            if monster_hp - to > 0 {
                lemma_fight_hp_fits(turn + 1, hp, monster_hp - to, to, from);
            }
        } else {
            if hp - from > 0 {
                lemma_fight_hp_fits(turn + 1, hp - from, monster_hp, to, from);
            }
        }
    }
}

/// A fight that the character wins with `hp` hit points goes the same way with `k`
/// more: it lasts the same turns and leaves `k` more hit points.
proof fn lemma_fight_turns_shift(turn: int, hp: int, k: int, monster_hp: int, to: int, from: int)
    requires
        k >= 0,
        fight_turns(turn, hp, monster_hp, to, from).1 > 0,
    ensures
        fight_turns(turn, hp + k, monster_hp, to, from) == (
            fight_turns(turn, hp, monster_hp, to, from).0,
            fight_turns(turn, hp, monster_hp, to, from).1 + k,
        ),
    decreases 101 - turn,
{
    if turn <= 100 {
        if turn % 2 == 1 {
            if monster_hp - to > 0 {
                lemma_fight_turns_shift(turn + 1, hp, k, monster_hp - to, to, from);
            }
        } else {
            if hp - from > 0 {
                lemma_fight_turns_shift(turn + 1, hp - from, k, monster_hp, to, from);
            }
        }
    }
}

/// A character starts a fight with 115 hit points, 5 more for each level, the gear's
/// health increase, less the hit points it misses: against a monster that falls at
/// its first strike, the fight lasts one turn and leaves the character exactly those.
pub proof fn law_fight_starting_hit_points(
    level: int,
    missing_hp: int,
    health_increase: int,
    monster_hp: int,
    damage_to_monster: int,
    damage_from_monster: int,
    haste: int,
)
    requires
        monster_hp <= damage_to_monster,
    ensures
        simulated_fight(level, missing_hp, health_increase, monster_hp, damage_to_monster, damage_from_monster, haste).turns
            == 1,
        simulated_fight(level, missing_hp, health_increase, monster_hp, damage_to_monster, damage_from_monster, haste).hp_left
            == (115 + 5 * level + health_increase - missing_hp) as i32,
{
}

/// The gear's health increase adds one for one to the hit points a fight leaves: a
/// fight that the character wins goes the same way with `k` more of health increase,
/// lasting the same turns, won again, with `k` more hit points left.
pub proof fn law_fight_health_increase_adds_hit_points(
    level: int,
    missing_hp: int,
    health_increase: int,
    k: int,
    monster_hp: int,
    damage_to_monster: int,
    damage_from_monster: int,
    haste: int,
)
    requires
        k >= 0,
        start_fits(level, health_increase, missing_hp),
        start_fits(level, health_increase + k, missing_hp),
        fight_fits(1, starting_hp(level, health_increase, missing_hp), monster_hp, damage_to_monster, damage_from_monster),
        fight_fits(1, starting_hp(level, health_increase + k, missing_hp), monster_hp, damage_to_monster, damage_from_monster),
        simulated_fight(level, missing_hp, health_increase, monster_hp, damage_to_monster, damage_from_monster, haste).result
            == FightResult::Win,
    ensures
        ({
            let a = simulated_fight(level, missing_hp, health_increase, monster_hp, damage_to_monster, damage_from_monster, haste);
            let b = simulated_fight(level, missing_hp, health_increase + k, monster_hp, damage_to_monster, damage_from_monster, haste);
            &&& b.turns == a.turns
            &&& b.hp_left == a.hp_left + k
            &&& b.result == FightResult::Win
            &&& b.cd == a.cd
        }),
{
    let h0 = starting_hp(level, health_increase, missing_hp);
    let h1 = starting_hp(level, health_increase + k, missing_hp);
    assert(h1 == h0 + k);
    lemma_fight_turns_shift(1, h0, k, monster_hp, damage_to_monster, damage_from_monster);
    lemma_fight_hp_fits(1, h0, monster_hp, damage_to_monster, damage_from_monster);
    lemma_fight_hp_fits(1, h1, monster_hp, damage_to_monster, damage_from_monster);
}

impl FightSimulator {
    pub fn new() -> (res: Self)
        ensures
            res == (FightSimulator {}),
    {
        FightSimulator {  }
    }

    /// Simulates a fight of a character of `level`, missing `missing_hp` hit points,
    /// whose gear adds `health_increase` hit points and `haste` percent of haste,
    /// against a monster of `monster_hp` hit points; each strike of the character
    /// takes `damage_to_monster` off the monster, each of the monster
    /// `damage_from_monster` off the character.
    pub fn simulate(
        &self,
        level: i32,
        missing_hp: i32,
        health_increase: i32,
        monster_hp: i32,
        damage_to_monster: i32,
        damage_from_monster: i32,
        haste: i32,
    ) -> (res: Fight)
        requires
            start_fits(level as int, health_increase as int, missing_hp as int),
            fight_fits(
                1,
                starting_hp(level as int, health_increase as int, missing_hp as int),
                monster_hp as int,
                damage_to_monster as int,
                damage_from_monster as int,
            ),
        ensures
            res == simulated_fight(
                level as int,
                missing_hp as int,
                health_increase as int,
                monster_hp as int,
                damage_to_monster as int,
                damage_from_monster as int,
                haste as int,
            ),
    {
        let mut hp: i32 = 115 + 5 * level + health_increase - missing_hp;
        let mut m_hp: i32 = monster_hp;
        let mut turns: i32 = 1;
        let ghost target = fight_turns(
            1,
            hp as int,
            monster_hp as int,
            damage_to_monster as int,
            damage_from_monster as int,
        );
        while turns <= 100
            invariant_except_break
                target == fight_turns(
                    turns as int,
                    hp as int,
                    m_hp as int,
                    damage_to_monster as int,
                    damage_from_monster as int,
                ),
                fight_fits(
                    turns as int,
                    hp as int,
                    m_hp as int,
                    damage_to_monster as int,
                    damage_from_monster as int,
                ),
            invariant
                1 <= turns <= 101,
            ensures
                target == (turns as int, hp as int),
            decreases 101 - turns,
        {
            if turns % 2 == 1 {
                m_hp = m_hp - damage_to_monster;
                if m_hp <= 0 {
                    break;
                }
            } else {
                hp = hp - damage_from_monster;
                if hp <= 0 {
                    break;
                }
            }
            turns = turns + 1;
        }
        assert(target == (turns as int, hp as int));
        proof {
            lemma_fight_turns_bounds(
                1,
                starting_hp(level as int, health_increase as int, missing_hp as int),
                monster_hp as int,
                damage_to_monster as int,
                damage_from_monster as int,
            );
        }
        let t2: i64 = (turns as i64) * 2;
        let h: i64 = 100 - haste as i64;
        assert(-202 * 4294967296 <= t2 * h <= 202 * 4294967296) by (nonlinear_arith)
            requires
                0 <= t2 <= 202,
                -4294967296 <= h <= 4294967296,
        ;
        let num: i64 = t2 * h;
        let raw: i64 = if num >= 0 {
            (num + 99) / 100
        } else {
            -((-num) / 100)
        };
        proof {
            if num >= 0 {
                assert((num + 99) / 100 == -((-num) / 100)) by (nonlinear_arith)
                    requires
                        num >= 0,
                ;
            }
        }
        let cd: i32 = if raw < i32::MIN as i64 {
            i32::MIN
        } else if raw > i32::MAX as i64 {
            i32::MAX
        } else {
            raw as i32
        };
        Fight {
            turns,
            hp_left: hp,
            result: if hp > 0 {
                FightResult::Win
            } else {
                FightResult::Loss
            },
            cd,
        }
    }

    /// Returns the cooldown in seconds of gathering a resource of `ressource_level` with
    /// a skill at `skill_level` and `cooldown_reduction` percent of cooldown reduction.
    pub fn gather(&self, skill_level: i32, ressource_level: i32, cooldown_reduction: i32) -> (res: i32)
        requires
            fits_i32(skill_level - ressource_level),
        ensures
            res == gather_cooldown(skill_level as int, ressource_level as int, cooldown_reduction as int),
    {
        let diff: i128 = (skill_level - ressource_level) as i128;
        let a: i128 = 250 - diff;
        let b: i128 = 100 + cooldown_reduction as i128;
        assert(-0x1_0000_0000_0000_0000 <= a * b <= 0x1_0000_0000_0000_0000) by (nonlinear_arith)
            requires
                -4294967296 <= a <= 4294967296,
                -4294967296 <= b <= 4294967296,
        ;
        let x: i128 = a * b;
        let r: i128 = if x >= 0 {
            (x + 500) / 1000
        } else {
            -((-x + 500) / 1000)
        };
        if r < i32::MIN as i128 {
            i32::MIN
        } else if r > i32::MAX as i128 {
            i32::MAX
        } else {
            r as i32
        }
    }
}

} // verus!
