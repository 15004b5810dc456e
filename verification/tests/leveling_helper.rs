use artifactsmmo_semi_auto_bot::leveling_helper::{best_crafts, best_crafts_hardcoded, CraftFacts, LevelingCraft};
use artifactsmmo_semi_auto_bot::sdk::skill::Skill;

fn item(code: &str) -> LevelingCraft {
    LevelingCraft::Item(code.to_string())
}

fn craft(code: &str, level: u32, mats: &[&str]) -> CraftFacts {
    CraftFacts {
        code: code.to_string(),
        level,
        precious_stone: false,
        requires_task_reward: false,
        mats: mats.iter().map(|m| m.to_string()).collect(),
    }
}

#[test]
fn hardcoded_crafts_by_level() {
    assert_eq!(item("wooden_shield"), best_crafts_hardcoded(1, Skill::Gearcrafting));
    assert_eq!(item("iron_helm"), best_crafts_hardcoded(10, Skill::Gearcrafting));
    assert_eq!(LevelingCraft::Best, best_crafts_hardcoded(20, Skill::Gearcrafting));
    assert_eq!(item("copper_ring"), best_crafts_hardcoded(9, Skill::Jewelrycrafting));
    assert_eq!(item("iron_ring"), best_crafts_hardcoded(10, Skill::Jewelrycrafting));
    assert_eq!(item("life_ring"), best_crafts_hardcoded(15, Skill::Jewelrycrafting));
    assert_eq!(item("steel_ring"), best_crafts_hardcoded(29, Skill::Jewelrycrafting));
    assert_eq!(item("gold_ring"), best_crafts_hardcoded(30, Skill::Jewelrycrafting));
    assert_eq!(item("cooked_gudgeon"), best_crafts_hardcoded(1, Skill::Cooking));
    assert_eq!(item("cooked_shrimp"), best_crafts_hardcoded(10, Skill::Cooking));
    assert_eq!(item("cooked_trout"), best_crafts_hardcoded(20, Skill::Cooking));
    assert_eq!(item("cooked_bass"), best_crafts_hardcoded(40, Skill::Cooking));
    assert_eq!(LevelingCraft::Best, best_crafts_hardcoded(1, Skill::Weaponcrafting));
    assert_eq!(LevelingCraft::Best, best_crafts_hardcoded(1, Skill::Alchemy));
    assert_eq!(LevelingCraft::Nothing, best_crafts_hardcoded(1, Skill::Fishing));
    assert_eq!(LevelingCraft::Nothing, best_crafts_hardcoded(1, Skill::Combat));
}

#[test]
fn best_crafts_keeps_the_highest_candidates() {
    let crafts = vec![
        craft("copper_dagger", 1, &["copper_bar"]),
        craft("iron_sword", 10, &["iron_bar"]),
        craft("wooden_staff", 12, &["ash_plank"]),
        craft("obsidian_blade", 12, &["obsidian", "iron_bar"]),
        craft("fire_staff", 10, &["ash_plank"]),
        CraftFacts { precious_stone: true, ..craft("ruby", 11, &[]) },
        CraftFacts { requires_task_reward: true, ..craft("greater_staff", 11, &[]) },
    ];
    assert_eq!(vec!["iron_sword".to_string(), "fire_staff".to_string()], best_crafts(&crafts));
    assert!(best_crafts(&vec![craft("wooden_staff", 1, &[])]).is_empty());
    assert!(best_crafts(&vec![]).is_empty());
}
