use crate::codes::{code_clone, code_view};
use crate::gear::{Gear, Slot};
use crate::gear_assembly::{
    artifact_sets_spec, as_choices, choice_fits, somes, choices_view, index_product, lemma_index_product, lens_view,
    product_of_indices, ring_sets_spec,
};
use crate::gear_finder::{
    codes_view, dedup_spec, gen_artifacts_sets, gen_ring_sets, gen_utility_sets, is_sorted_permutation,
    pairs_product, utility_sets_of, wrappers_view, Codes, ItemWrapper, ItemWrapperView,
};
use vstd::prelude::*;

verus! {

/// The items of a combat gear, by the code of each, slot by slot.
pub struct CombatGearView {
    pub weapon: Option<Seq<char>>,
    pub shield: Option<Seq<char>>,
    pub helmet: Option<Seq<char>>,
    pub body_armor: Option<Seq<char>>,
    pub leg_armor: Option<Seq<char>>,
    pub boots: Option<Seq<char>>,
    pub ring1: Option<Seq<char>>,
    pub ring2: Option<Seq<char>>,
    pub amulet: Option<Seq<char>>,
    pub artifact1: Option<Seq<char>>,
    pub artifact2: Option<Seq<char>>,
    pub artifact3: Option<Seq<char>>,
    pub utility1: Option<Seq<char>>,
    pub utility2: Option<Seq<char>>,
    pub rune: Option<Seq<char>>,
    pub bag: Option<Seq<char>>,
}

pub open spec fn combat_gear_view(g: Gear) -> CombatGearView {
    CombatGearView {
        weapon: code_view(g.weapon),
        shield: code_view(g.shield),
        helmet: code_view(g.helmet),
        body_armor: code_view(g.body_armor),
        leg_armor: code_view(g.leg_armor),
        boots: code_view(g.boots),
        ring1: code_view(g.ring1),
        ring2: code_view(g.ring2),
        amulet: code_view(g.amulet),
        artifact1: code_view(g.artifact1),
        artifact2: code_view(g.artifact2),
        artifact3: code_view(g.artifact3),
        utility1: code_view(g.utility1),
        utility2: code_view(g.utility2),
        rune: code_view(g.rune),
        bag: code_view(g.bag),
    }
}

pub open spec fn combat_gears_view(gs: Seq<Gear>) -> Seq<CombatGearView> {
    gs.map_values(|g: Gear| combat_gear_view(g))
}

/// A list of choices for some slots of a combat gear: the candidates for one armor
/// or rune slot, or the ring, utility or artifact sets.
pub enum CombatGroup {
    Armor(Slot, Vec<Option<String>>),
    Sets(Vec<ItemWrapper>),
}

pub enum CombatGroupView {
    Armor(Slot, Codes),
    Sets(Seq<ItemWrapperView>),
}

pub open spec fn combat_group_view(g: CombatGroup) -> CombatGroupView {
    match g {
        CombatGroup::Armor(s, l) => CombatGroupView::Armor(s, codes_view(l@)),
        CombatGroup::Sets(ws) => CombatGroupView::Sets(wrappers_view(ws@)),
    }
}

pub open spec fn combat_group_len(g: CombatGroupView) -> nat {
    match g {
        CombatGroupView::Armor(_, l) => l.len(),
        CombatGroupView::Sets(ws) => ws.len(),
    }
}

/// `g` with the slots of group `group` taken from its choice at `idx`.
pub open spec fn combat_apply(g: CombatGearView, group: CombatGroupView, idx: int) -> CombatGearView {
    match group {
        CombatGroupView::Armor(slot, l) => match slot {
            Slot::Helmet => CombatGearView { helmet: l[idx], ..g },
            Slot::Shield => CombatGearView { shield: l[idx], ..g },
            Slot::BodyArmor => CombatGearView { body_armor: l[idx], ..g },
            Slot::LegArmor => CombatGearView { leg_armor: l[idx], ..g },
            Slot::Boots => CombatGearView { boots: l[idx], ..g },
            Slot::Amulet => CombatGearView { amulet: l[idx], ..g },
            Slot::Rune => CombatGearView { rune: l[idx], ..g },
            _ => g,
        },
        CombatGroupView::Sets(ws) => match ws[idx] {
            ItemWrapperView::Rings(r) => CombatGearView { ring1: r[0], ring2: r[1], ..g },
            ItemWrapperView::Utility(u) => CombatGearView { utility1: u[0], utility2: u[1], ..g },
            ItemWrapperView::Artifacts(a) => CombatGearView {
                artifact1: a[0],
                artifact2: a[1],
                artifact3: a[2],
                ..g
            },
            _ => g,
        },
    }
}

/// The combat gear with `weapon` and nothing else.
pub open spec fn combat_weapon_only(weapon: Seq<char>) -> CombatGearView {
    CombatGearView {
        weapon: Some(weapon),
        shield: None,
        helmet: None,
        body_armor: None,
        leg_armor: None,
        boots: None,
        ring1: None,
        ring2: None,
        amulet: None,
        artifact1: None,
        artifact2: None,
        artifact3: None,
        utility1: None,
        utility2: None,
        rune: None,
        bag: None,
    }
}

/// The combat gear with `weapon` and, for each group, its choice in `choice`.
pub open spec fn combat_gear_for(weapon: Seq<char>, groups: Seq<CombatGroupView>, choice: Seq<int>) -> CombatGearView
    decreases groups.len(),
{
    if groups.len() == 0 {
        combat_weapon_only(weapon)
    } else {
        combat_apply(
            combat_gear_for(weapon, groups.drop_last(), choice.drop_last()),
            groups.last(),
            choice.last(),
        )
    }
}

/// The utility sets of `utilities` as `gen_utility_sets` makes them.
pub open spec fn utility_sets_spec(us: Seq<ItemWrapperView>, utilities: Codes) -> bool {
    exists|s: Seq<Codes>|
        is_sorted_permutation(s, pairs_product(utilities, utilities)) && us == dedup_spec(utility_sets_of(s))
}

/// The utility sets as `gen_utility_sets` makes them of `utilities`, when utilities
/// are considered; none when they are not.
pub open spec fn utility_choice_spec(us: Option<Seq<ItemWrapperView>>, utilities: Option<Codes>) -> bool {
    match utilities {
        Some(u) => us matches Some(x) && utility_sets_spec(x, u),
        None => us is None,
    }
}

/// The candidate utilities with the choice of none added, when utilities are
/// considered.
pub open spec fn utilities_with_none(utilities: Option<Vec<Option<String>>>) -> Option<Codes> {
    match utilities {
        Some(u) => Some(codes_view(u@).push(None)),
        None => None,
    }
}

/// The groups of a combat gear, in order: each armor list that is not empty, the ring
/// sets, the utility sets when utilities are considered, the artifact sets and the
/// runes, each when there are some.
pub open spec fn combat_groups_of(
    helmets: Codes,
    shields: Codes,
    body_armor: Codes,
    leg_armor: Codes,
    boots: Codes,
    amulets: Codes,
    ring_sets: Seq<ItemWrapperView>,
    utility_sets: Option<Seq<ItemWrapperView>>,
    artifact_sets: Seq<ItemWrapperView>,
    runes: Codes,
) -> Seq<CombatGroupView> {
    let all = seq![
        CombatGroupView::Armor(Slot::Helmet, helmets),
        CombatGroupView::Armor(Slot::Shield, shields),
        CombatGroupView::Armor(Slot::BodyArmor, body_armor),
        CombatGroupView::Armor(Slot::LegArmor, leg_armor),
        CombatGroupView::Armor(Slot::Boots, boots),
        CombatGroupView::Armor(Slot::Amulet, amulets),
        CombatGroupView::Sets(ring_sets),
    ] + match utility_sets {
        Some(u) => seq![CombatGroupView::Sets(u)],
        None => Seq::empty(),
    } + seq![CombatGroupView::Sets(artifact_sets), CombatGroupView::Armor(Slot::Rune, runes)];
    all.filter(|g: CombatGroupView| combat_group_len(g) > 0)
}

/// Every combat gear with `weapon` made of one choice of each group, the last group
/// varying fastest.
pub open spec fn combat_gears_of(weapon: Seq<char>, groups: Seq<CombatGroupView>) -> Seq<CombatGearView> {
    index_product(groups.map_values(|g: CombatGroupView| combat_group_len(g))).map_values(
        |c: Seq<int>| combat_gear_for(weapon, groups, c),
    )
}

fn combat_group_len_exec(g: &CombatGroup) -> (res: usize)
    ensures
        res == combat_group_len(combat_group_view(*g)),
{
    match g {
        CombatGroup::Armor(_, l) => l.len(),
        CombatGroup::Sets(ws) => ws.len(),
    }
}

fn combat_apply_exec(g: &mut Gear, group: &CombatGroup, idx: usize)
    requires
        idx < combat_group_len(combat_group_view(*group)),
    ensures
        combat_gear_view(*final(g)) == combat_apply(combat_gear_view(*old(g)), combat_group_view(*group), idx as int),
{
    match group {
        CombatGroup::Armor(slot, l) => {
            let c = code_clone(&l[idx]);
            match slot {
                Slot::Helmet => g.helmet = c,
                Slot::Shield => g.shield = c,
                Slot::BodyArmor => g.body_armor = c,
                Slot::LegArmor => g.leg_armor = c,
                Slot::Boots => g.boots = c,
                Slot::Amulet => g.amulet = c,
                Slot::Rune => g.rune = c,
                _ => {},
            }
        },
        CombatGroup::Sets(ws) => {
            match &ws[idx] {
                ItemWrapper::Rings(r) => {
                    g.ring1 = code_clone(r.ring1());
                    g.ring2 = code_clone(r.ring2());
                },
                ItemWrapper::Utility(u) => {
                    g.utility1 = code_clone(u.utility1());
                    g.utility2 = code_clone(u.utility2());
                },
                ItemWrapper::Artifacts(a) => {
                    g.artifact1 = code_clone(a.artifact1());
                    g.artifact2 = code_clone(a.artifact2());
                    g.artifact3 = code_clone(a.artifact3());
                },
                _ => {},
            }
        },
    }
}

/// Every combat gear with `weapon` made of the candidates found for each slot: one
/// of each non-empty armor list, one set of a ring of `rings` and a ring of `rings2`,
/// when `utilities` is given one set of two of its utilities or none, one set of
/// three of `artifacts` or none, and one of `runes`, in the order in which these
/// choices come.
pub fn combat_gears_with_weapon(
    weapon: String,
    helmets: Vec<Option<String>>,
    shields: Vec<Option<String>>,
    body_armor: Vec<Option<String>>,
    leg_armor: Vec<Option<String>>,
    boots: Vec<Option<String>>,
    amulets: Vec<Option<String>>,
    rings: Vec<Option<String>>,
    rings2: Vec<Option<String>>,
    utilities: Option<Vec<Option<String>>>,
    artifacts: Vec<Option<String>>,
    runes: Vec<String>,
) -> (res: Vec<Gear>)
    ensures
        exists|rs: Seq<ItemWrapperView>, us: Option<Seq<ItemWrapperView>>, ars: Seq<ItemWrapperView>|
            #![trigger ring_sets_spec(rs, codes_view(rings@), codes_view(rings2@)), utility_choice_spec(us, utilities_with_none(utilities)), artifact_sets_spec(ars, codes_view(artifacts@).push(None))]
            ring_sets_spec(rs, codes_view(rings@), codes_view(rings2@)) && utility_choice_spec(
                us,
                utilities_with_none(utilities),
            ) && artifact_sets_spec(ars, codes_view(artifacts@).push(None))
                && combat_gears_view(res@) == combat_gears_of(
                weapon@,
                combat_groups_of(
                    codes_view(helmets@),
                    codes_view(shields@),
                    codes_view(body_armor@),
                    codes_view(leg_armor@),
                    codes_view(boots@),
                    codes_view(amulets@),
                    rs,
                    us,
                    ars,
                    somes(runes@),
                ),
            ),
{
    let ghost (h, sh, ba, la, bo, am) = (
        codes_view(helmets@),
        codes_view(shields@),
        codes_view(body_armor@),
        codes_view(leg_armor@),
        codes_view(boots@),
        codes_view(amulets@),
    );
    let ghost rn = somes(runes@);
    let ring_sets = gen_ring_sets(rings, rings2);
    let ghost rs = wrappers_view(ring_sets@);
    let utility_sets = match utilities {
        Some(u) => {
            let mut u = u;
            let ghost us0 = codes_view(u@);
            u.push(None);
            assert(codes_view(u@) =~= us0.push(None));
            Some(gen_utility_sets(u))
        },
        None => None,
    };
    let ghost us: Option<Seq<ItemWrapperView>> = match &utility_sets {
        Some(x) => Some(wrappers_view(x@)),
        None => None,
    };
    let mut artifacts = artifacts;
    let ghost arts = codes_view(artifacts@);
    artifacts.push(None);
    assert(codes_view(artifacts@) =~= arts.push(None));
    let artifact_sets = gen_artifacts_sets(artifacts);
    let ghost ars = wrappers_view(artifact_sets@);
    let rune_list = as_choices(runes);
    let ghost all = seq![
        CombatGroupView::Armor(Slot::Helmet, h),
        CombatGroupView::Armor(Slot::Shield, sh),
        CombatGroupView::Armor(Slot::BodyArmor, ba),
        CombatGroupView::Armor(Slot::LegArmor, la),
        CombatGroupView::Armor(Slot::Boots, bo),
        CombatGroupView::Armor(Slot::Amulet, am),
        CombatGroupView::Sets(rs),
    ] + match us {
        Some(u) => seq![CombatGroupView::Sets(u)],
        None => Seq::empty(),
    } + seq![CombatGroupView::Sets(ars), CombatGroupView::Armor(Slot::Rune, rn)];
    let ghost pred = |g: CombatGroupView| combat_group_len(g) > 0;
    let mut candidates: Vec<CombatGroup> = Vec::new();
    candidates.push(CombatGroup::Armor(Slot::Helmet, helmets));
    candidates.push(CombatGroup::Armor(Slot::Shield, shields));
    candidates.push(CombatGroup::Armor(Slot::BodyArmor, body_armor));
    candidates.push(CombatGroup::Armor(Slot::LegArmor, leg_armor));
    candidates.push(CombatGroup::Armor(Slot::Boots, boots));
    candidates.push(CombatGroup::Armor(Slot::Amulet, amulets));
    candidates.push(CombatGroup::Sets(ring_sets));
    match utility_sets {
        Some(x) => candidates.push(CombatGroup::Sets(x)),
        None => {},
    }
    candidates.push(CombatGroup::Sets(artifact_sets));
    candidates.push(CombatGroup::Armor(Slot::Rune, rune_list));
    assert(candidates@.map_values(|g: CombatGroup| combat_group_view(g)) =~= all);
    let ghost total = all.len();
    let mut groups: Vec<CombatGroup> = Vec::new();
    let mut lens: Vec<usize> = Vec::new();
    while candidates.len() > 0
        invariant
            candidates@.len() <= total,
            all.len() == total,
            pred == (|g: CombatGroupView| combat_group_len(g) > 0),
            candidates@.map_values(|g: CombatGroup| combat_group_view(g)) == all.skip(total - candidates@.len()),
            groups@.map_values(|g: CombatGroup| combat_group_view(g)) == all.take(total - candidates@.len()).filter(
                pred,
            ),
            lens_view(lens@) == groups@.map_values(|g: CombatGroup| combat_group_view(g)).map_values(
                |g: CombatGroupView| combat_group_len(g),
            ),
        decreases candidates@.len(),
    {
        let ghost k = total - candidates@.len();
        let ghost before_c = candidates@;
        let g = candidates.remove(0);
        proof {
            assert(all.skip(k)[0] == all[k]);
            assert(before_c.map_values(|g: CombatGroup| combat_group_view(g))[0] == combat_group_view(before_c[0]));
            assert(candidates@ =~= before_c.drop_first());
            assert(candidates@.map_values(|g: CombatGroup| combat_group_view(g)) =~= before_c.map_values(
                |g: CombatGroup| combat_group_view(g),
            ).drop_first());
            assert(all.skip(k).drop_first() =~= all.skip(k + 1));
            assert(all.take(k + 1).drop_last() =~= all.take(k));
            assert(all.take(k + 1).last() == all[k]);
        }
        let n = combat_group_len_exec(&g);
        let ghost gb = groups@;
        let ghost lb = lens@;
        if n > 0 {
            groups.push(g);
            lens.push(n);
            assert(groups@.map_values(|g: CombatGroup| combat_group_view(g)) =~= gb.map_values(
                |g: CombatGroup| combat_group_view(g),
            ).push(all[k]));
            assert(lens_view(lens@) =~= lens_view(lb).push(n as nat));
            assert(all.take(k + 1).filter(pred) == all.take(k).filter(pred).push(all[k])) by {
                reveal(Seq::filter);
            }
        } else {
            assert(all.take(k + 1).filter(pred) == all.take(k).filter(pred)) by {
                reveal(Seq::filter);
            }
        }
        assert(groups@.map_values(|g: CombatGroup| combat_group_view(g)) =~= all.take(k + 1).filter(pred));
        assert(lens_view(lens@) =~= groups@.map_values(|g: CombatGroup| combat_group_view(g)).map_values(
            |g: CombatGroupView| combat_group_len(g),
        ));
    }
    assert(all.take(total as int) =~= all);
    let ghost gv = groups@.map_values(|g: CombatGroup| combat_group_view(g));
    assert(gv == all.filter(pred));
    let choices = product_of_indices(&lens);
    proof {
        lemma_index_product(lens_view(lens@));
    }
    let ghost cv = choices_view(choices@);
    let mut res: Vec<Gear> = Vec::new();
    let mut i: usize = 0;
    while i < choices.len()
        invariant
            i <= choices.len(),
            cv == choices_view(choices@),
            cv == index_product(lens_view(lens@)),
            gv == groups@.map_values(|g: CombatGroup| combat_group_view(g)),
            lens_view(lens@) == gv.map_values(|g: CombatGroupView| combat_group_len(g)),
            forall|x: int| 0 <= x < cv.len() ==> choice_fits(#[trigger] cv[x], lens_view(lens@)),
            combat_gears_view(res@) == cv.take(i as int).map_values(|c: Seq<int>| combat_gear_for(weapon@, gv, c)),
        decreases choices.len() - i,
    {
        let c = &choices[i];
        assert(cv[i as int] == c@.map_values(|x: usize| x as int));
        assert(choice_fits(cv[i as int], lens_view(lens@)));
        let mut g = Gear {
            weapon: Some(weapon.clone()),
            shield: None,
            helmet: None,
            body_armor: None,
            leg_armor: None,
            boots: None,
            ring1: None,
            ring2: None,
            amulet: None,
            artifact1: None,
            artifact2: None,
            artifact3: None,
            utility1: None,
            utility2: None,
            rune: None,
            bag: None,
        };
        let mut k: usize = 0;
        while k < groups.len()
            invariant
                k <= groups.len(),
                i < choices.len(),
                c == &choices[i as int],
                cv[i as int] == c@.map_values(|x: usize| x as int),
                lens@.len() == groups@.len(),
                gv == groups@.map_values(|g: CombatGroup| combat_group_view(g)),
                lens_view(lens@) == gv.map_values(|g: CombatGroupView| combat_group_len(g)),
                choice_fits(cv[i as int], lens_view(lens@)),
                combat_gear_view(g) == combat_gear_for(weapon@, gv.take(k as int), cv[i as int].take(k as int)),
            decreases groups.len() - k,
        {
            proof {
                assert(gv.take(k + 1).drop_last() =~= gv.take(k as int));
                assert(cv[i as int].take(k + 1).drop_last() =~= cv[i as int].take(k as int));
                assert(gv.take(k + 1).last() == gv[k as int]);
                assert(cv[i as int].take(k + 1).last() == cv[i as int][k as int]);
                assert(lens_view(lens@)[k as int] == combat_group_len(gv[k as int]));
                assert(c@[k as int] as int == cv[i as int][k as int]);
            }
            combat_apply_exec(&mut g, &groups[k], c[k]);
            k = k + 1;
        }
        assert(gv.take(k as int) =~= gv);
        assert(cv[i as int].take(k as int) =~= cv[i as int]);
        let ghost before = res@;
        res.push(g);
        assert(combat_gears_view(res@) =~= combat_gears_view(before).push(combat_gear_view(g)));
        assert(cv.take(i + 1) =~= cv.take(i as int).push(cv[i as int]));
        assert(combat_gears_view(res@) =~= cv.take(i + 1).map_values(
            |c: Seq<int>| combat_gear_for(weapon@, gv, c),
        ));
        i = i + 1;
    }
    assert(cv.take(i as int) =~= cv);
    assert(ring_sets_spec(rs, codes_view(rings@), codes_view(rings2@)));
    assert(artifact_sets_spec(ars, arts.push(None)));
    assert(utility_choice_spec(us, utilities_with_none(utilities)));
    assert(gv == combat_groups_of(h, sh, ba, la, bo, am, rs, us, ars, rn));
    assert(gv.map_values(|g: CombatGroupView| combat_group_len(g)) =~= lens_view(lens@));
    assert(combat_gears_view(res@) =~= combat_gears_of(weapon@, gv));
    res
}

} // verus!
