use artifactsmmo_semi_auto_bot::gear::Slot;
use artifactsmmo_semi_auto_bot::combat_gears::combat_gears_with_weapon;
use artifactsmmo_semi_auto_bot::gear_assembly::{equipments_with_weapon, gears_with_weapon, ring2_black_list};
use artifactsmmo_semi_auto_bot::gear_finder::{
    gen_artifacts_sets, gen_ring_sets, gen_utility_sets, is_eligible, item_from_wrappers,
    ArtifactSet, Filter, ItemFacts, ItemWrapper, RingSet, UtilitySet,
};

fn c(x: &str) -> Option<String> {
    Some(x.to_string())
}

#[test]
fn ring_set_sorts_and_rejects_empty() {
    assert!(RingSet::new([None, None]).is_none());
    let set = RingSet::new([c("gold_ring"), c("copper_ring")]).unwrap();
    assert_eq!(set.ring1(), &c("copper_ring"));
    assert_eq!(set.ring2(), &c("gold_ring"));
    assert_eq!(set.slot(Slot::Ring2), &c("gold_ring"));
    assert_eq!(set.slot(Slot::Helmet), &None);
    let set = RingSet::new([c("iron_ring"), None]).unwrap();
    assert_eq!(set.ring1(), &None);
    assert_eq!(set.ring2(), &c("iron_ring"));
    let set = RingSet::new([c("iron_ring"), c("iron_ring")]).unwrap();
    assert_eq!(set.ring1(), &c("iron_ring"));
}

#[test]
fn utility_set_rejects_twins() {
    assert!(UtilitySet::new([c("potion"), c("potion")]).is_none());
    assert!(UtilitySet::new([None, None]).is_none());
    let set = UtilitySet::new([c("small_potion"), None]).unwrap();
    assert_eq!(set.utility1(), &None);
    assert_eq!(set.slot(Slot::Utility2), &c("small_potion"));
}

#[test]
fn artifact_set_sorts_three() {
    assert!(ArtifactSet::new([c("b"), None, c("b")]).is_none());
    assert!(ArtifactSet::new([None, None, None]).is_none());
    let set = ArtifactSet::new([c("c"), None, c("a")]).unwrap();
    assert_eq!(set.artifact1(), &None);
    assert_eq!(set.artifact2(), &c("a"));
    assert_eq!(set.artifact3(), &c("c"));
    assert_eq!(set.slot(Slot::Artifact3), &c("c"));
    let set = ArtifactSet::new([None, None, c("z")]).unwrap();
    assert_eq!(set.artifact3(), &c("z"));
}

#[test]
fn gen_ring_sets_combines_both_lists() {
    let sets = gen_ring_sets(vec![c("a"), c("b")], vec![c("a"), None]);
    // pairs sorted: [a,None] [a,a] [b,None] [b,a] -> sets [None,a] [a,a] [None,b] [a,b]
    assert_eq!(sets.len(), 4);
    match &sets[0] {
        ItemWrapper::Rings(r) => {
            assert_eq!(r.ring1(), &None);
            assert_eq!(r.ring2(), &c("a"));
        }
        _ => panic!("not a ring set"),
    }
    assert!(gen_ring_sets(vec![], vec![c("a")]).is_empty());
}

#[test]
fn gen_utility_sets_skips_twins() {
    let sets = gen_utility_sets(vec![c("x"), None]);
    // pairs sorted: [None,None] [None,x] [x,None] [x,x] -> [None,x] [None,x] -> dedup
    assert_eq!(sets.len(), 1);
}

#[test]
fn gen_artifacts_sets_from_two_and_none() {
    let sets = gen_artifacts_sets(vec![c("a"), c("b"), None]);
    assert!(!sets.is_empty());
    for s in sets.iter() {
        assert!(matches!(s, ItemWrapper::Artifacts(_)));
    }
}

#[test]
fn filter_default() {
    let f = Filter::default();
    assert!(!f.available && f.craftable && f.from_task && f.from_npc && f.from_monster && !f.utilities);
}

fn facts(code: &str) -> ItemFacts {
    ItemFacts {
        code: code.to_string(),
        meets_conditions: true,
        available: 0,
        craftable: false,
        can_craft: false,
        buyable: false,
        crafted_from_task: false,
        from_monster: false,
    }
}

#[test]
fn eligibility_follows_the_filter() {
    let f = Filter::default();
    assert!(is_eligible(&facts("copper_helmet"), f));
    assert!(!is_eligible(&facts("steel_gloves"), f));
    assert!(!is_eligible(&ItemFacts { meets_conditions: false, ..facts("copper_helmet") }, f));
    let uncraftable = ItemFacts { craftable: true, ..facts("iron_helmet") };
    assert!(!is_eligible(&uncraftable, f));
    assert!(is_eligible(&uncraftable, Filter { craftable: false, ..f }));
    let bought = ItemFacts { buyable: true, ..facts("iron_helmet") };
    assert!(is_eligible(&bought, f));
    assert!(!is_eligible(&bought, Filter { from_npc: false, ..f }));
    let from_task = ItemFacts { crafted_from_task: true, ..facts("iron_helmet") };
    assert!(!is_eligible(&from_task, Filter { from_task: false, ..f }));
    let dropped = ItemFacts { from_monster: true, ..facts("iron_helmet") };
    assert!(!is_eligible(&dropped, Filter { from_monster: false, ..f }));
    let available = Filter { available: true, ..f };
    assert!(!is_eligible(&facts("steel_gloves"), available));
    assert!(is_eligible(&ItemFacts { available: 1, ..facts("steel_gloves") }, available));
}

#[test]
fn item_from_wrappers_takes_the_first_fitting_code() {
    let rings = RingSet::new([c("iron_ring"), c("copper_ring")]).unwrap();
    let wrappers = vec![
        ItemWrapper::Armor(c("copper_helmet")),
        ItemWrapper::Rings(rings),
        ItemWrapper::Armor(c("iron_helmet")),
    ];
    let helmets = vec!["iron_helmet".to_string()];
    assert_eq!(c("iron_helmet"), item_from_wrappers(&wrappers, Slot::Helmet, &helmets));
    let all_helmets = vec!["iron_helmet".to_string(), "copper_helmet".to_string()];
    assert_eq!(c("copper_helmet"), item_from_wrappers(&wrappers, Slot::Helmet, &all_helmets));
    let rings = vec!["copper_ring".to_string(), "iron_ring".to_string()];
    assert_eq!(c("copper_ring"), item_from_wrappers(&wrappers, Slot::Ring1, &rings));
    assert_eq!(c("iron_ring"), item_from_wrappers(&wrappers, Slot::Ring2, &rings));
    assert_eq!(None, item_from_wrappers(&wrappers, Slot::Boots, &rings));
}

fn v(xs: &[Option<&str>]) -> Vec<Option<String>> {
    xs.iter().map(|x| x.map(|s| s.to_string())).collect()
}

#[test]
fn gears_with_weapon_combines_each_slot() {
    let gears = gears_with_weapon(
        "copper_dagger".to_string(),
        v(&[Some("copper_helmet"), Some("iron_helm")]),
        v(&[]),
        v(&[Some("leather_armor")]),
        v(&[]),
        v(&[]),
        v(&[]),
        v(&[Some("copper_ring")]),
        v(&[Some("iron_ring")]),
        v(&[]),
    );
    assert_eq!(2, gears.len());
    assert_eq!(c("copper_dagger"), gears[0].weapon);
    assert_eq!(c("copper_helmet"), gears[0].helmet);
    assert_eq!(c("iron_helm"), gears[1].helmet);
    assert_eq!(c("leather_armor"), gears[1].body_armor);
    assert_eq!(c("copper_ring"), gears[0].ring1);
    assert_eq!(c("iron_ring"), gears[0].ring2);
    assert_eq!(None, gears[0].artifact1);
    let bare = gears_with_weapon("stick".to_string(), v(&[]), v(&[]), v(&[]), v(&[]), v(&[]), v(&[]), v(&[]), v(&[]), v(&[]));
    assert_eq!(1, bare.len());
    assert_eq!(c("stick"), bare[0].weapon);
    assert_eq!(None, bare[0].helmet);
    let arts = gears_with_weapon("stick".to_string(), v(&[]), v(&[]), v(&[]), v(&[]), v(&[]), v(&[]), v(&[]), v(&[]), v(&[Some("a"), Some("b")]));
    // The sets of three of {a, b, none}, each sorted, an item twice refused, and only
    // repeats in a row removed.
    assert_eq!(10, arts.len());
    assert_eq!((None, None, c("a")), (arts[0].artifact1.clone(), arts[0].artifact2.clone(), arts[0].artifact3.clone()));
    assert_eq!((None, None, c("b")), (arts[1].artifact1.clone(), arts[1].artifact2.clone(), arts[1].artifact3.clone()));
}

#[test]
fn second_ring_black_list() {
    let rings = v(&[Some("copper_ring"), None, Some("iron_ring")]);
    assert_eq!(vec!["copper_ring".to_string()], ring2_black_list(&rings, &vec![1, 0, 2], true));
    assert!(ring2_black_list(&rings, &vec![1, 0, 2], false).is_empty());
}

fn codes(xs: &[&str]) -> Vec<String> {
    xs.iter().map(|x| x.to_string()).collect()
}

#[test]
fn combat_gears_include_utilities_and_runes() {
    let gears = combat_gears_with_weapon(
        "copper_dagger".to_string(),
        v(&[Some("copper_helmet")]),
        v(&[]),
        v(&[]),
        v(&[]),
        v(&[]),
        v(&[]),
        v(&[]),
        v(&[]),
        Some(v(&[Some("small_health_potion")])),
        v(&[]),
        codes(&["burn_rune", "healing_rune"]),
    );
    // One helmet, the utility sets {none, potion} (the pair of twins refused), two runes.
    assert_eq!(2, gears.len());
    assert_eq!(c("copper_helmet"), gears[0].helmet);
    assert_eq!(None, gears[0].utility1);
    assert_eq!(c("small_health_potion"), gears[0].utility2);
    assert_eq!(c("burn_rune"), gears[0].rune);
    assert_eq!(c("healing_rune"), gears[1].rune);
    assert_eq!(None, gears[1].bag);
    let no_utilities = combat_gears_with_weapon(
        "copper_dagger".to_string(),
        v(&[]),
        v(&[]),
        v(&[]),
        v(&[]),
        v(&[]),
        v(&[]),
        v(&[]),
        v(&[]),
        None,
        v(&[]),
        codes(&[]),
    );
    assert_eq!(1, no_utilities.len());
    assert_eq!(None, no_utilities[0].utility2);
}

#[test]
fn equipments_fill_each_slot_in_order() {
    let e = equipments_with_weapon(
        "copper_dagger".to_string(),
        codes(&["copper_helmet"]),
        codes(&[]),
        codes(&[]),
        codes(&[]),
        codes(&["copper_boots"]),
        codes(&["copper_ring", "iron_ring"]),
        codes(&["iron_ring"]),
        codes(&["life_amulet"]),
    );
    assert_eq!(2, e.len());
    assert_eq!(c("copper_ring"), e[0].ring1);
    assert_eq!(c("iron_ring"), e[0].ring2);
    assert_eq!(c("iron_ring"), e[1].ring1);
    assert_eq!(c("copper_boots"), e[1].boots);
    assert_eq!(c("life_amulet"), e[1].amulet);
    assert_eq!(None, e[1].shield);
}
