use crate::sdk::skill::Skill;
use vstd::prelude::*;

verus! {

/// What the leveling helper crafts to level a skill: the best crafts found among the
/// items, one item chosen beforehand, or nothing.
#[derive(Debug, PartialEq, Eq)]
pub enum LevelingCraft {
    Best,
    Item(String),
    Nothing,
}

/// The view of a `LevelingCraft`.
pub enum LevelingCraftView {
    Best,
    Item(Seq<char>),
    Nothing,
}

impl View for LevelingCraft {
    type V = LevelingCraftView;

    open spec fn view(&self) -> LevelingCraftView {
        match self {
            LevelingCraft::Best => LevelingCraftView::Best,
            LevelingCraft::Item(c) => LevelingCraftView::Item(c@),
            LevelingCraft::Nothing => LevelingCraftView::Nothing,
        }
    }
}

/// The craft chosen beforehand to level `skill` at `level`.
pub open spec fn hardcoded_craft_spec(level: u32, skill: Skill) -> LevelingCraftView {
    match skill {
        Skill::Gearcrafting => if level >= 20 {
            LevelingCraftView::Best
        } else if level >= 10 {
            LevelingCraftView::Item("iron_helm"@)
        } else {
            LevelingCraftView::Item("wooden_shield"@)
        },
        Skill::Jewelrycrafting => if level >= 30 {
            LevelingCraftView::Item("gold_ring"@)
        } else if level >= 20 {
            LevelingCraftView::Item("steel_ring"@)
        } else if level >= 15 {
            LevelingCraftView::Item("life_ring"@)
        } else if level >= 10 {
            LevelingCraftView::Item("iron_ring"@)
        } else {
            LevelingCraftView::Item("copper_ring"@)
        },
        Skill::Cooking => if level >= 30 {
            LevelingCraftView::Item("cooked_bass"@)
        } else if level >= 20 {
            LevelingCraftView::Item("cooked_trout"@)
        } else if level >= 10 {
            LevelingCraftView::Item("cooked_shrimp"@)
        } else {
            LevelingCraftView::Item("cooked_gudgeon"@)
        },
        Skill::Weaponcrafting | Skill::Mining | Skill::Woodcutting | Skill::Alchemy => LevelingCraftView::Best,
        Skill::Fishing | Skill::Combat => LevelingCraftView::Nothing,
    }
}

/// Mining, woodcutting, alchemy and weaponcrafting, which refine what is gathered,
/// are leveled by crafting the best crafts found among the items, at every level;
/// apart from them only gearcrafting from level 20 on is; fishing and combat, and
/// they alone, are never leveled by crafting.
pub proof fn law_refining_skills_craft_best(level: u32, skill: Skill)
    ensures
        (skill is Mining || skill is Woodcutting || skill is Alchemy || skill is Weaponcrafting)
            ==> hardcoded_craft_spec(level, skill) is Best,
        (hardcoded_craft_spec(level, skill) is Best) <==> (skill is Mining || skill is Woodcutting
            || skill is Alchemy || skill is Weaponcrafting || (skill is Gearcrafting && level >= 20)),
        (hardcoded_craft_spec(level, skill) is Nothing) <==> (skill is Fishing || skill is Combat),
{
}

/// The craft chosen beforehand to level `skill` at `level`: a fixed item for the
/// first levels of gearcrafting and for jewelrycrafting and cooking, the best crafts
/// found among the items for the other crafting skills, nothing for fishing and
/// combat.
pub fn best_crafts_hardcoded(level: u32, skill: Skill) -> (res: LevelingCraft)
    ensures
        res@ == hardcoded_craft_spec(level, skill),
{
    match skill {
        Skill::Gearcrafting => {
            if level >= 20 {
                LevelingCraft::Best
            } else if level >= 10 {
                LevelingCraft::Item("iron_helm".to_owned())
            } else {
                LevelingCraft::Item("wooden_shield".to_owned())
            }
        },
        Skill::Jewelrycrafting => {
            if level >= 30 {
                LevelingCraft::Item("gold_ring".to_owned())
            } else if level >= 20 {
                LevelingCraft::Item("steel_ring".to_owned())
            } else if level >= 15 {
                LevelingCraft::Item("life_ring".to_owned())
            } else if level >= 10 {
                LevelingCraft::Item("iron_ring".to_owned())
            } else {
                LevelingCraft::Item("copper_ring".to_owned())
            }
        },
        Skill::Cooking => {
            if level >= 30 {
                LevelingCraft::Item("cooked_bass".to_owned())
            } else if level >= 20 {
                LevelingCraft::Item("cooked_trout".to_owned())
            } else if level >= 10 {
                LevelingCraft::Item("cooked_shrimp".to_owned())
            } else {
                LevelingCraft::Item("cooked_gudgeon".to_owned())
            }
        },
        Skill::Weaponcrafting | Skill::Mining | Skill::Woodcutting | Skill::Alchemy => LevelingCraft::Best,
        Skill::Fishing | Skill::Combat => LevelingCraft::Nothing,
    }
}

/// What the leveling helper knows of an item that gives experience when crafted: its
/// code and level, whether it is a precious stone, whether it needs a task reward,
/// and the codes of its materials.
#[derive(Debug)]
pub struct CraftFacts {
    pub code: String,
    pub level: u32,
    pub precious_stone: bool,
    pub requires_task_reward: bool,
    pub mats: Vec<String>,
}

/// Items that are never crafted to level a skill.
pub open spec fn never_crafted(code: Seq<char>) -> bool {
    code == "wooden_staff"@ || code == "life_amulet"@ || code == "feather_coat"@
}

/// Materials too rare to be spent on leveling.
pub open spec fn rare_mat(code: Seq<char>) -> bool {
    code == "obsidian"@ || code == "diamond"@ || code == "strange_ore"@ || code == "magic_wood"@
}

/// Whether an item may be crafted to level a skill.
pub open spec fn leveling_candidate(c: CraftFacts) -> bool {
    &&& !never_crafted(c.code@)
    &&& !c.precious_stone
    &&& !c.requires_task_reward
    &&& forall|j: int| 0 <= j < c.mats@.len() ==> !rare_mat(#[trigger] c.mats@[j]@)
}

/// Whether `c` is a candidate of the highest level among the candidates of `cs`.
pub open spec fn best_of(cs: Seq<CraftFacts>, c: CraftFacts) -> bool {
    &&& leveling_candidate(c)
    &&& forall|j: int| 0 <= j < cs.len() && leveling_candidate(#[trigger] cs[j]) ==> cs[j].level <= c.level
}

/// The codes of the candidates of `cs` that are of the highest level, in order.
pub open spec fn best_crafts_spec(cs: Seq<CraftFacts>) -> Seq<Seq<char>> {
    cs.filter(|c: CraftFacts| best_of(cs, c)).map_values(|c: CraftFacts| c.code@)
}

fn is_rare_mat(code: &String) -> (res: bool)
    ensures
        res == rare_mat(code@),
{
    *code == "obsidian".to_owned() || *code == "diamond".to_owned() || *code == "strange_ore".to_owned()
        || *code == "magic_wood".to_owned()
}

fn is_leveling_candidate(c: &CraftFacts) -> (res: bool)
    ensures
        res == leveling_candidate(*c),
{
    if c.code == "wooden_staff".to_owned() || c.code == "life_amulet".to_owned() || c.code
        == "feather_coat".to_owned() || c.precious_stone || c.requires_task_reward {
        return false;
    }
    let mut j: usize = 0;
    while j < c.mats.len()
        invariant
            j <= c.mats.len(),
            forall|k: int| 0 <= k < j ==> !rare_mat(#[trigger] c.mats@[k]@),
        decreases c.mats.len() - j,
    {
        if is_rare_mat(&c.mats[j]) {
            return false;
        }
        j = j + 1;
    }
    true
}

/// The codes of the items of `crafts` to craft to level a skill: among those that are
/// not set aside, not precious stones, need no task reward and no rare material, the
/// ones of the highest level, in the order of `crafts`.
pub fn best_crafts(crafts: &Vec<CraftFacts>) -> (res: Vec<String>)
    ensures
        res@.map_values(|s: String| s@) == best_crafts_spec(crafts@),
{
    let ghost cs = crafts@;
    let mut top: Option<u32> = None;
    let mut i: usize = 0;
    while i < crafts.len()
        invariant
            i <= crafts.len(),
            cs == crafts@,
            match top {
                Some(t) => {
                    &&& exists|k: int| 0 <= k < i && leveling_candidate(#[trigger] cs[k]) && cs[k].level == t
                    &&& forall|k: int| 0 <= k < i && leveling_candidate(#[trigger] cs[k]) ==> cs[k].level <= t
                },
                None => forall|k: int| 0 <= k < i ==> !leveling_candidate(#[trigger] cs[k]),
            },
        decreases crafts.len() - i,
    {
        if is_leveling_candidate(&crafts[i]) {
            top = match top {
                Some(t) => if crafts[i].level > t {
                    Some(crafts[i].level)
                } else {
                    Some(t)
                },
                None => Some(crafts[i].level),
            };
        }
        i = i + 1;
    }
    let mut res: Vec<String> = Vec::new();
    let ghost pred = |c: CraftFacts| best_of(cs, c);
    let mut i: usize = 0;
    match top {
        Some(t) => {
            while i < crafts.len()
                invariant
                    i <= crafts.len(),
                    cs == crafts@,
                    pred == (|c: CraftFacts| best_of(cs, c)),
                    exists|k: int| 0 <= k < cs.len() && leveling_candidate(#[trigger] cs[k]) && cs[k].level == t,
                    forall|k: int| 0 <= k < cs.len() && leveling_candidate(#[trigger] cs[k]) ==> cs[k].level <= t,
                    res@.map_values(|s: String| s@) == cs.take(i as int).filter(pred).map_values(
                        |c: CraftFacts| c.code@,
                    ),
                decreases crafts.len() - i,
            {
                proof {
                    reveal(Seq::filter);
                    assert(cs.take(i + 1).drop_last() =~= cs.take(i as int));
                    assert(cs.take(i + 1).last() == cs[i as int]);
                }
                if is_leveling_candidate(&crafts[i]) && crafts[i].level == t {
                    let ghost before = res@;
                    let code = crafts[i].code.clone();
                    assert(code@ == cs[i as int].code@);
                    res.push(code);
                    proof {
                        assert(res@.map_values(|s: String| s@) =~= before.map_values(|s: String| s@).push(
                            cs[i as int].code@,
                        ));
                        assert(best_of(cs, cs[i as int]));
                        assert(pred(cs[i as int]));
                        assert(cs.take(i + 1).filter(pred) =~= cs.take(i as int).filter(pred).push(cs[i as int]));
                        assert(res@.map_values(|s: String| s@) =~= cs.take(i + 1).filter(pred).map_values(
                            |c: CraftFacts| c.code@,
                        ));
                    }
                } else {
                    proof {
                        if best_of(cs, cs[i as int]) {
                            let k = choose|k: int| 0 <= k < cs.len() && leveling_candidate(#[trigger] cs[k]) && cs[k].level == t;
                            assert(cs[k].level <= cs[i as int].level);
                        }
                        assert(!pred(cs[i as int]));
                        assert(res@.map_values(|s: String| s@) =~= cs.take(i + 1).filter(pred).map_values(
                            |c: CraftFacts| c.code@,
                        ));
                    }
                }
                i = i + 1;
            }
            proof {
                assert(cs.take(i as int) =~= cs);
            }
        },
        None => {
            proof {
                assert forall|k: int| 0 <= k < cs.len() implies !pred(cs[k]) by {
                    assert(!leveling_candidate(cs[k]));
                }
                cs.lemma_all_neg_filter_empty(pred);
                assert(res@.map_values(|s: String| s@) =~= best_crafts_spec(cs));
            }
        },
    }
    res
}

} // verus!
