use crate::codes::{code_clone, code_view};
use crate::gear_finder::{
    artifact_sets_of, codes_view, dedup_spec, gen_artifacts_sets, gen_ring_sets, is_sorted_permutation,
    pairs_product, ring_sets_of, triples_product, wrappers_view, Codes, ItemWrapper, ItemWrapperView,
};
use crate::sdk::gear::{Gear, Slot};
use itertools::Itertools;
use vstd::prelude::*;

verus! {

/// The items of a gear, by the code of each, slot by slot.
pub struct GearView {
    pub weapon: Option<Seq<char>>,
    pub shield: Option<Seq<char>>,
    pub helmet: Option<Seq<char>>,
    pub body_armor: Option<Seq<char>>,
    pub leg_armor: Option<Seq<char>>,
    pub boots: Option<Seq<char>>,
    pub ring1: Option<Seq<char>>,
    pub ring2: Option<Seq<char>>,
    pub amulet: Option<Seq<char>>,
    pub artifact1: Option<Seq<char>>,
    pub artifact2: Option<Seq<char>>,
    pub artifact3: Option<Seq<char>>,
    pub consumable1: Option<Seq<char>>,
    pub consumable2: Option<Seq<char>>,
}

pub open spec fn gear_view(g: Gear) -> GearView {
    GearView {
        weapon: code_view(g.weapon),
        shield: code_view(g.shield),
        helmet: code_view(g.helmet),
        body_armor: code_view(g.body_armor),
        leg_armor: code_view(g.leg_armor),
        boots: code_view(g.boots),
        ring1: code_view(g.ring1),
        ring2: code_view(g.ring2),
        amulet: code_view(g.amulet),
        artifact1: code_view(g.artifact1),
        artifact2: code_view(g.artifact2),
        artifact3: code_view(g.artifact3),
        consumable1: code_view(g.consumable1),
        consumable2: code_view(g.consumable2),
    }
}

pub open spec fn gears_view(gs: Seq<Gear>) -> Seq<GearView> {
    gs.map_values(|g: Gear| gear_view(g))
}

/// A list of choices for some slots of a gear: the candidates for one armor slot, or
/// the ring or artifact sets.
pub enum SlotGroup {
    Armor(Slot, Vec<Option<String>>),
    Sets(Vec<ItemWrapper>),
}

pub enum SlotGroupView {
    Armor(Slot, Codes),
    Sets(Seq<ItemWrapperView>),
}

pub open spec fn group_view(g: SlotGroup) -> SlotGroupView {
    match g {
        SlotGroup::Armor(s, l) => SlotGroupView::Armor(s, codes_view(l@)),
        SlotGroup::Sets(ws) => SlotGroupView::Sets(wrappers_view(ws@)),
    }
}

pub open spec fn group_len(g: SlotGroupView) -> nat {
    match g {
        SlotGroupView::Armor(_, l) => l.len(),
        SlotGroupView::Sets(ws) => ws.len(),
    }
}

/// The choices of one element of each list, for lists of lengths `lens`, the last
/// choice varying fastest; one empty choice for no list.
pub open spec fn index_product(lens: Seq<nat>) -> Seq<Seq<int>>
    decreases lens.len(),
{
    if lens.len() == 0 {
        seq![Seq::empty()]
    } else {
        extend_each(index_product(lens.drop_last()), lens.last())
    }
}

/// Each of `ps` followed by each of `0..n`, in order.
pub open spec fn extend_each(ps: Seq<Seq<int>>, n: nat) -> Seq<Seq<int>>
    decreases ps.len(),
{
    if ps.len() == 0 {
        Seq::empty()
    } else {
        extend_each(ps.drop_last(), n) + Seq::new(n, |j: int| ps.last().push(j))
    }
}

/// `g` with the slots of group `group` taken from its choice at `idx`.
pub open spec fn apply_choice(g: GearView, group: SlotGroupView, idx: int) -> GearView {
    match group {
        SlotGroupView::Armor(slot, l) => match slot {
            Slot::Helmet => GearView { helmet: l[idx], ..g },
            Slot::Shield => GearView { shield: l[idx], ..g },
            Slot::BodyArmor => GearView { body_armor: l[idx], ..g },
            Slot::LegArmor => GearView { leg_armor: l[idx], ..g },
            Slot::Boots => GearView { boots: l[idx], ..g },
            Slot::Amulet => GearView { amulet: l[idx], ..g },
            Slot::Ring1 => GearView { ring1: l[idx], ..g },
            Slot::Ring2 => GearView { ring2: l[idx], ..g },
            _ => g,
        },
        SlotGroupView::Sets(ws) => match ws[idx] {
            ItemWrapperView::Rings(r) => GearView { ring1: r[0], ring2: r[1], ..g },
            ItemWrapperView::Artifacts(a) => GearView { artifact1: a[0], artifact2: a[1], artifact3: a[2], ..g },
            _ => g,
        },
    }
}

/// The gear with `weapon` and nothing else.
pub open spec fn weapon_only(weapon: Seq<char>) -> GearView {
    GearView {
        weapon: Some(weapon),
        shield: None,
        helmet: None,
        body_armor: None,
        leg_armor: None,
        boots: None,
        ring1: None,
        ring2: None,
        amulet: None,
        artifact1: None,
        artifact2: None,
        artifact3: None,
        consumable1: None,
        consumable2: None,
    }
}

/// The gear with `weapon` and, for each group, its choice in `choice`.
pub open spec fn gear_for(weapon: Seq<char>, groups: Seq<SlotGroupView>, choice: Seq<int>) -> GearView
    decreases groups.len(),
{
    if groups.len() == 0 {
        weapon_only(weapon)
    } else {
        apply_choice(gear_for(weapon, groups.drop_last(), choice.drop_last()), groups.last(), choice.last())
    }
}

/// The groups made of the candidate lists, in order: each armor list that is not
/// empty, then the ring sets and the artifact sets when there are some.
pub open spec fn groups_of(
    helmets: Codes,
    shields: Codes,
    body_armor: Codes,
    leg_armor: Codes,
    boots: Codes,
    amulets: Codes,
    ring_sets: Seq<ItemWrapperView>,
    artifact_sets: Seq<ItemWrapperView>,
) -> Seq<SlotGroupView> {
    let armor = seq![
        SlotGroupView::Armor(Slot::Helmet, helmets),
        SlotGroupView::Armor(Slot::Shield, shields),
        SlotGroupView::Armor(Slot::BodyArmor, body_armor),
        SlotGroupView::Armor(Slot::LegArmor, leg_armor),
        SlotGroupView::Armor(Slot::Boots, boots),
        SlotGroupView::Armor(Slot::Amulet, amulets),
        SlotGroupView::Sets(ring_sets),
        SlotGroupView::Sets(artifact_sets),
    ];
    armor.filter(|g: SlotGroupView| group_len(g) > 0)
}

/// Every gear with `weapon` made of one choice of each group, in the order in which
/// the choices come, the last group varying fastest.
pub open spec fn gears_of(weapon: Seq<char>, groups: Seq<SlotGroupView>) -> Seq<GearView> {
    index_product(groups.map_values(|g: SlotGroupView| group_len(g))).map_values(
        |c: Seq<int>| gear_for(weapon, groups, c),
    )
}

/// The ring sets of `rings1` and `rings2` as `gen_ring_sets` makes them.
pub open spec fn ring_sets_spec(rs: Seq<ItemWrapperView>, rings1: Codes, rings2: Codes) -> bool {
    exists|s: Seq<Codes>| is_sorted_permutation(s, pairs_product(rings1, rings2)) && rs == dedup_spec(ring_sets_of(s))
}

/// The artifact sets of `artifacts` as `gen_artifacts_sets` makes them.
pub open spec fn artifact_sets_spec(rs: Seq<ItemWrapperView>, artifacts: Codes) -> bool {
    exists|s: Seq<Codes>|
        is_sorted_permutation(s, triples_product(artifacts, artifacts, artifacts)) && rs == dedup_spec(
            artifact_sets_of(s),
        )
}

pub open spec fn choices_view(v: Seq<Vec<usize>>) -> Seq<Seq<int>> {
    v.map_values(|c: Vec<usize>| c@.map_values(|x: usize| x as int))
}

pub open spec fn lens_view(v: Seq<usize>) -> Seq<nat> {
    v.map_values(|n: usize| n as nat)
}

/// Calls `Itertools::multi_cartesian_product` on the ranges `0..n` for each `n` of
/// `lens`, which lists every choice of one index in each range, the last varying
/// fastest, and a single empty choice when `lens` is empty.
#[verifier::external_body]
pub(crate) fn product_of_indices(lens: &Vec<usize>) -> (res: Vec<Vec<usize>>)
    ensures
        choices_view(res@) == index_product(lens_view(lens@)),
{
    lens.iter().map(|n| 0..*n).multi_cartesian_product().collect()
}

/// Every choice in `extend_each(ps, n)` is one of `ps` followed by an index below `n`.
proof fn lemma_extend_each(ps: Seq<Seq<int>>, n: nat, m: nat)
    requires
        forall|i: int| 0 <= i < ps.len() ==> (#[trigger] ps[i]).len() == m,
    ensures
        forall|i: int|
            0 <= i < extend_each(ps, n).len() ==> (#[trigger] extend_each(ps, n)[i]).len() == m + 1
                && 0 <= extend_each(ps, n)[i].last() < n && ps.contains(extend_each(ps, n)[i].drop_last()),
    decreases ps.len(),
{
    if ps.len() > 0 {
        lemma_extend_each(ps.drop_last(), n, m);
        let prev = extend_each(ps.drop_last(), n);
        let tail = Seq::new(n, |j: int| ps.last().push(j));
        assert forall|i: int| 0 <= i < extend_each(ps, n).len() implies (#[trigger] extend_each(ps, n)[i]).len()
            == m + 1 && 0 <= extend_each(ps, n)[i].last() < n && ps.contains(extend_each(ps, n)[i].drop_last()) by {
            if i < prev.len() {
                assert(extend_each(ps, n)[i] == prev[i]);
                let d = prev[i].drop_last();
                assert(ps.drop_last().contains(d));
                let k = choose|k: int| 0 <= k < ps.drop_last().len() && ps.drop_last()[k] == d;
                assert(ps[k] == d);
            } else {
                let j = i - prev.len();
                assert(extend_each(ps, n)[i] == tail[j]);
                assert(tail[j].drop_last() =~= ps.last());
                assert(ps[ps.len() - 1] == ps.last());
            }
        }
    }
}

/// `c` picks, for each list of lengths `lens`, an index within it.
pub open spec fn choice_fits(c: Seq<int>, lens: Seq<nat>) -> bool {
    c.len() == lens.len() && forall|k: int| 0 <= k < lens.len() ==> 0 <= #[trigger] c[k] < lens[k]
}

/// Every choice of `index_product(lens)` picks, for each list, an index within it.
pub proof fn lemma_index_product(lens: Seq<nat>)
    ensures
        forall|i: int| 0 <= i < index_product(lens).len() ==> choice_fits(#[trigger] index_product(lens)[i], lens),
    decreases lens.len(),
{
    if lens.len() > 0 {
        let prev = index_product(lens.drop_last());
        lemma_index_product(lens.drop_last());
        assert forall|i: int| 0 <= i < prev.len() implies (#[trigger] prev[i]).len() == (lens.len() - 1) as nat by {
            assert(choice_fits(prev[i], lens.drop_last()));
        }
        lemma_extend_each(prev, lens.last(), (lens.len() - 1) as nat);
        assert forall|i: int| 0 <= i < index_product(lens).len() implies choice_fits(#[trigger] index_product(lens)[i], lens) by {
            let c = index_product(lens)[i];
            let d = c.drop_last();
            assert(prev.contains(d));
            let j = choose|j: int| 0 <= j < prev.len() && prev[j] == d;
            assert(choice_fits(prev[j], lens.drop_last()));
            assert forall|k: int| 0 <= k < lens.len() implies 0 <= #[trigger] c[k] < lens[k] by {
                if k < lens.len() - 1 {
                    assert(c[k] == d[k]);
                    assert(lens.drop_last()[k] == lens[k]);
                } else {
                    assert(c[k] == c.last());
                }
            }
        }
    }
}

fn group_len_exec(g: &SlotGroup) -> (res: usize)
    ensures
        res == group_len(group_view(*g)),
{
    match g {
        SlotGroup::Armor(_, l) => l.len(),
        SlotGroup::Sets(ws) => ws.len(),
    }
}

fn apply_choice_exec(g: &mut Gear, group: &SlotGroup, idx: usize)
    requires
        idx < group_len(group_view(*group)),
    ensures
        gear_view(*final(g)) == apply_choice(gear_view(*old(g)), group_view(*group), idx as int),
{
    match group {
        SlotGroup::Armor(slot, l) => {
            let c = code_clone(&l[idx]);
            match slot {
                Slot::Helmet => g.helmet = c,
                Slot::Shield => g.shield = c,
                Slot::BodyArmor => g.body_armor = c,
                Slot::LegArmor => g.leg_armor = c,
                Slot::Boots => g.boots = c,
                Slot::Amulet => g.amulet = c,
                Slot::Ring1 => g.ring1 = c,
                Slot::Ring2 => g.ring2 = c,
                _ => {},
            }
        },
        SlotGroup::Sets(ws) => {
            match &ws[idx] {
                ItemWrapper::Rings(r) => {
                    g.ring1 = code_clone(r.ring1());
                    g.ring2 = code_clone(r.ring2());
                },
                ItemWrapper::Artifacts(a) => {
                    g.artifact1 = code_clone(a.artifact1());
                    g.artifact2 = code_clone(a.artifact2());
                    g.artifact3 = code_clone(a.artifact3());
                },
                _ => {},
            }
        },
    }
}

/// The rings of `rings` that cannot go in the second ring slot: with `available`
/// set, those of which the character has at most one, `held[i]` being what it has of
/// `rings[i]`; none otherwise.
pub fn ring2_black_list(rings: &Vec<Option<String>>, held: &Vec<u32>, available: bool) -> (res: Vec<String>)
    requires
        held@.len() == rings@.len(),
    ensures
        res@.map_values(|s: String| s@) == black_list_spec(codes_view(rings@), held@, available),
{
    let ghost all = codes_view(rings@);
    let mut res: Vec<String> = Vec::new();
    let mut i: usize = 0;
    while i < rings.len()
        invariant
            i <= rings.len(),
            held@.len() == rings@.len(),
            all == codes_view(rings@),
            res@.map_values(|s: String| s@) == black_list_spec(all.take(i as int), held@.take(i as int), available),
        decreases rings.len() - i,
    {
        proof {
            assert(all.take(i + 1).drop_last() =~= all.take(i as int));
            assert(held@.take(i + 1).drop_last() =~= held@.take(i as int));
            assert(all.take(i + 1).last() == all[i as int]);
            assert(held@.take(i + 1).last() == held@[i as int]);
        }
        let ghost before = res@;
        if let Some(r) = &rings[i] {
            if available && held[i] <= 1 {
                res.push(r.clone());
                assert(res@.map_values(|s: String| s@) =~= before.map_values(|s: String| s@).push(r@));
            }
        }
        i = i + 1;
    }
    assert(all.take(i as int) =~= all);
    assert(held@.take(i as int) =~= held@);
    res
}

/// The codes of `rings` that are kept from the second ring slot, in order.
pub open spec fn black_list_spec(rings: Codes, held: Seq<u32>, available: bool) -> Seq<Seq<char>>
    decreases rings.len(),
{
    if rings.len() == 0 {
        Seq::empty()
    } else {
        let prev = black_list_spec(rings.drop_last(), held.drop_last(), available);
        match rings.last() {
            Some(c) => if available && held.last() <= 1 {
                prev.push(c)
            } else {
                prev
            },
            None => prev,
        }
    }
}

/// Every gear with `weapon` made of one choice of each of the groups of `candidates`
/// that are not empty, in the order in which the choices come, the last group
/// varying fastest.
fn assemble(weapon: &String, candidates: Vec<SlotGroup>) -> (res: Vec<Gear>)
    ensures
        gears_view(res@) == gears_of(
            weapon@,
            candidates@.map_values(|g: SlotGroup| group_view(g)).filter(|g: SlotGroupView| group_len(g) > 0),
        ),
{
    let mut candidates = candidates;
    let ghost all = candidates@.map_values(|g: SlotGroup| group_view(g));
    let ghost pred = |g: SlotGroupView| group_len(g) > 0;
    let ghost total = all.len();
    assert(all.skip(0) =~= all);
    let mut groups: Vec<SlotGroup> = Vec::new();
    let mut lens: Vec<usize> = Vec::new();
    while candidates.len() > 0
        invariant
            candidates@.len() <= total,
            all.len() == total,
            pred == (|g: SlotGroupView| group_len(g) > 0),
            candidates@.map_values(|g: SlotGroup| group_view(g)) == all.skip(total - candidates@.len()),
            groups@.map_values(|g: SlotGroup| group_view(g)) == all.take(total - candidates@.len()).filter(pred),
            lens_view(lens@) == groups@.map_values(|g: SlotGroup| group_view(g)).map_values(
                |g: SlotGroupView| group_len(g),
            ),
        decreases candidates@.len(),
    {
        let ghost k = total - candidates@.len();
        let ghost before_c = candidates@;
        let g = candidates.remove(0);
        let ghost gview = group_view(g);
        proof {
            assert(all.skip(k)[0] == all[k]);
            assert(before_c.map_values(|g: SlotGroup| group_view(g))[0] == group_view(before_c[0]));
            assert(gview == all[k]);
            assert(candidates@ =~= before_c.drop_first());
            assert(candidates@.map_values(|g: SlotGroup| group_view(g)) =~= before_c.map_values(
                |g: SlotGroup| group_view(g),
            ).drop_first());
            assert(all.skip(k).drop_first() =~= all.skip(k + 1));
            assert(all.take(k + 1).drop_last() =~= all.take(k));
            assert(all.take(k + 1).last() == all[k]);
        }
        let n = group_len_exec(&g);
        let ghost gb = groups@;
        let ghost lb = lens@;
        if n > 0 {
            groups.push(g);
            lens.push(n);
            assert(groups@.map_values(|g: SlotGroup| group_view(g)) =~= gb.map_values(|g: SlotGroup| group_view(g)).push(
                all[k],
            ));
            assert(lens_view(lens@) =~= lens_view(lb).push(n as nat));
            assert(all.take(k + 1).filter(pred) == all.take(k).filter(pred).push(all[k])) by {
                reveal(Seq::filter);
            }
        } else {
            assert(all.take(k + 1).filter(pred) == all.take(k).filter(pred)) by {
                reveal(Seq::filter);
            }
        }
        assert(groups@.map_values(|g: SlotGroup| group_view(g)) =~= all.take(k + 1).filter(pred));
        assert(lens_view(lens@) =~= groups@.map_values(|g: SlotGroup| group_view(g)).map_values(
            |g: SlotGroupView| group_len(g),
        ));
    }
    assert(all.take(total as int) =~= all);
    let ghost gv = groups@.map_values(|g: SlotGroup| group_view(g));
    assert(gv == all.filter(pred));
    let choices = product_of_indices(&lens);
    proof {
        lemma_index_product(lens_view(lens@));
    }
    let ghost cv = choices_view(choices@);
    let mut res: Vec<Gear> = Vec::new();
    let mut i: usize = 0;
    while i < choices.len()
        invariant
            i <= choices.len(),
            cv == choices_view(choices@),
            cv == index_product(lens_view(lens@)),
            gv == groups@.map_values(|g: SlotGroup| group_view(g)),
            lens_view(lens@) == gv.map_values(|g: SlotGroupView| group_len(g)),
            forall|x: int| 0 <= x < cv.len() ==> choice_fits(#[trigger] cv[x], lens_view(lens@)),
            gears_view(res@) == cv.take(i as int).map_values(|c: Seq<int>| gear_for(weapon@, gv, c)),
        decreases choices.len() - i,
    {
        let c = &choices[i];
        assert(cv[i as int] == c@.map_values(|x: usize| x as int));
        assert(choice_fits(cv[i as int], lens_view(lens@)));
        let mut g = Gear {
            weapon: Some(weapon.clone()),
            shield: None,
            helmet: None,
            body_armor: None,
            leg_armor: None,
            boots: None,
            ring1: None,
            ring2: None,
            amulet: None,
            artifact1: None,
            artifact2: None,
            artifact3: None,
            consumable1: None,
            consumable2: None,
        };
        let mut k: usize = 0;
        while k < groups.len()
            invariant
                k <= groups.len(),
                i < choices.len(),
                c == &choices[i as int],
                cv[i as int] == c@.map_values(|x: usize| x as int),
                cv[i as int].len() == lens@.len(),
                lens@.len() == groups@.len(),
                gv == groups@.map_values(|g: SlotGroup| group_view(g)),
                lens_view(lens@) == gv.map_values(|g: SlotGroupView| group_len(g)),
                choice_fits(cv[i as int], lens_view(lens@)),
                gear_view(g) == gear_for(weapon@, gv.take(k as int), cv[i as int].take(k as int)),
            decreases groups.len() - k,
        {
            proof {
                assert(gv.take(k + 1).drop_last() =~= gv.take(k as int));
                assert(cv[i as int].take(k + 1).drop_last() =~= cv[i as int].take(k as int));
                assert(gv.take(k + 1).last() == gv[k as int]);
                assert(cv[i as int].take(k + 1).last() == cv[i as int][k as int]);
                assert(lens_view(lens@)[k as int] == group_len(gv[k as int]));
                assert(c@[k as int] as int == cv[i as int][k as int]);
            }
            apply_choice_exec(&mut g, &groups[k], c[k]);
            k = k + 1;
        }
        assert(gv.take(k as int) =~= gv);
        assert(cv[i as int].take(k as int) =~= cv[i as int]);
        let ghost before = res@;
        res.push(g);
        assert(gears_view(res@) =~= gears_view(before).push(gear_view(g)));
        assert(cv.take(i + 1) =~= cv.take(i as int).push(cv[i as int]));
        assert(gears_view(res@) =~= cv.take(i + 1).map_values(|c: Seq<int>| gear_for(weapon@, gv, c)));
        i = i + 1;
    }
    assert(cv.take(i as int) =~= cv);
    assert(gv.map_values(|g: SlotGroupView| group_len(g)) == lens_view(lens@));
    assert(gv.map_values(|g: SlotGroupView| group_len(g)) =~= lens_view(lens@));
    assert(gears_view(res@) =~= gears_of(weapon@, gv));
    res
}

/// Every gear with `weapon` made of the candidates found for each slot: one of each
/// non-empty armor list, one set of a ring of `rings` and a ring of `rings2` (as
/// `gen_ring_sets` makes them), and one set of three of `artifacts` or none (as
/// `gen_artifacts_sets` makes them from `artifacts` and no artifact), in the order in
/// which these choices come.
pub fn gears_with_weapon(
    weapon: String,
    helmets: Vec<Option<String>>,
    shields: Vec<Option<String>>,
    body_armor: Vec<Option<String>>,
    leg_armor: Vec<Option<String>>,
    boots: Vec<Option<String>>,
    amulets: Vec<Option<String>>,
    rings: Vec<Option<String>>,
    rings2: Vec<Option<String>>,
    artifacts: Vec<Option<String>>,
) -> (res: Vec<Gear>)
    ensures
        exists|rs: Seq<ItemWrapperView>, ars: Seq<ItemWrapperView>|
            ring_sets_spec(rs, codes_view(rings@), codes_view(rings2@)) && artifact_sets_spec(
                ars,
                codes_view(artifacts@).push(None),
            ) && gears_view(res@) == gears_of(
                weapon@,
                groups_of(
                    codes_view(helmets@),
                    codes_view(shields@),
                    codes_view(body_armor@),
                    codes_view(leg_armor@),
                    codes_view(boots@),
                    codes_view(amulets@),
                    rs,
                    ars,
                ),
            ),
{
    let ghost (h, sh, ba, la, bo, am) = (
        codes_view(helmets@),
        codes_view(shields@),
        codes_view(body_armor@),
        codes_view(leg_armor@),
        codes_view(boots@),
        codes_view(amulets@),
    );
    let ring_sets = gen_ring_sets(rings, rings2);
    let mut artifacts = artifacts;
    let ghost arts = codes_view(artifacts@);
    artifacts.push(None);
    assert(codes_view(artifacts@) =~= arts.push(None));
    let artifact_sets = gen_artifacts_sets(artifacts);
    let ghost rs = wrappers_view(ring_sets@);
    let ghost ars = wrappers_view(artifact_sets@);
    let ghost all = seq![
        SlotGroupView::Armor(Slot::Helmet, h),
        SlotGroupView::Armor(Slot::Shield, sh),
        SlotGroupView::Armor(Slot::BodyArmor, ba),
        SlotGroupView::Armor(Slot::LegArmor, la),
        SlotGroupView::Armor(Slot::Boots, bo),
        SlotGroupView::Armor(Slot::Amulet, am),
        SlotGroupView::Sets(rs),
        SlotGroupView::Sets(ars),
    ];
    let mut candidates: Vec<SlotGroup> = Vec::new();
    candidates.push(SlotGroup::Armor(Slot::Helmet, helmets));
    candidates.push(SlotGroup::Armor(Slot::Shield, shields));
    candidates.push(SlotGroup::Armor(Slot::BodyArmor, body_armor));
    candidates.push(SlotGroup::Armor(Slot::LegArmor, leg_armor));
    candidates.push(SlotGroup::Armor(Slot::Boots, boots));
    candidates.push(SlotGroup::Armor(Slot::Amulet, amulets));
    candidates.push(SlotGroup::Sets(ring_sets));
    candidates.push(SlotGroup::Sets(artifact_sets));
    assert(candidates@.map_values(|g: SlotGroup| group_view(g)) =~= seq![
        SlotGroupView::Armor(Slot::Helmet, h),
        SlotGroupView::Armor(Slot::Shield, sh),
        SlotGroupView::Armor(Slot::BodyArmor, ba),
        SlotGroupView::Armor(Slot::LegArmor, la),
        SlotGroupView::Armor(Slot::Boots, bo),
        SlotGroupView::Armor(Slot::Amulet, am),
        SlotGroupView::Sets(rs),
        SlotGroupView::Sets(ars),
    ]);
    let res = assemble(&weapon, candidates);
    assert(groups_of(h, sh, ba, la, bo, am, rs, ars) == all.filter(|g: SlotGroupView| group_len(g) > 0));
    assert(ring_sets_spec(rs, codes_view(rings@), codes_view(rings2@)));
    assert(artifact_sets_spec(ars, arts.push(None)));
    res
}

/// Each code of `v` as a choice for a slot.
pub open spec fn somes(v: Seq<String>) -> Codes {
    v.map_values(|r: String| Some(r@))
}

/// Each of `codes` as a choice for a slot.
pub fn as_choices(codes: Vec<String>) -> (res: Vec<Option<String>>)
    ensures
        codes_view(res@) == somes(codes@),
{
    let mut res: Vec<Option<String>> = Vec::new();
    let mut i: usize = 0;
    while i < codes.len()
        invariant
            i <= codes.len(),
            codes_view(res@) == somes(codes@.take(i as int)),
        decreases codes.len() - i,
    {
        let ghost before = res@;
        res.push(Some(codes[i].clone()));
        assert(codes_view(res@) =~= codes_view(before).push(Some(codes@[i as int]@)));
        assert(codes@.take(i + 1) =~= codes@.take(i as int).push(codes@[i as int]));
        assert(somes(codes@.take(i + 1)) =~= somes(codes@.take(i as int)).push(Some(codes@[i as int]@)));
        i = i + 1;
    }
    assert(codes@.take(i as int) =~= codes@);
    res
}

/// The groups of an equipment, in slot order: helmets, shields, body armors, leg
/// armors, boots, first rings, second rings and amulets, each when there are some.
pub open spec fn equipment_groups_of(
    helmets: Codes,
    shields: Codes,
    body_armor: Codes,
    leg_armor: Codes,
    boots: Codes,
    rings: Codes,
    rings2: Codes,
    amulets: Codes,
) -> Seq<SlotGroupView> {
    seq![
        SlotGroupView::Armor(Slot::Helmet, helmets),
        SlotGroupView::Armor(Slot::Shield, shields),
        SlotGroupView::Armor(Slot::BodyArmor, body_armor),
        SlotGroupView::Armor(Slot::LegArmor, leg_armor),
        SlotGroupView::Armor(Slot::Boots, boots),
        SlotGroupView::Armor(Slot::Ring1, rings),
        SlotGroupView::Armor(Slot::Ring2, rings2),
        SlotGroupView::Armor(Slot::Amulet, amulets),
    ].filter(|g: SlotGroupView| group_len(g) > 0)
}

/// Every equipment with `weapon` made of one item of each non-empty list, the first
/// ring taken from `rings` and the second from `rings2`, in the order in which these
/// choices come, the amulets varying fastest.
pub fn equipments_with_weapon(
    weapon: String,
    helmets: Vec<String>,
    shields: Vec<String>,
    body_armor: Vec<String>,
    leg_armor: Vec<String>,
    boots: Vec<String>,
    rings: Vec<String>,
    rings2: Vec<String>,
    amulets: Vec<String>,
) -> (res: Vec<Gear>)
    ensures
        gears_view(res@) == gears_of(
            weapon@,
            equipment_groups_of(
                somes(helmets@),
                somes(shields@),
                somes(body_armor@),
                somes(leg_armor@),
                somes(boots@),
                somes(rings@),
                somes(rings2@),
                somes(amulets@),
            ),
        ),
{
    let ghost v = (
        somes(helmets@),
        somes(shields@),
        somes(body_armor@),
        somes(leg_armor@),
        somes(boots@),
        somes(rings@),
        somes(rings2@),
        somes(amulets@),
    );
    let mut candidates: Vec<SlotGroup> = Vec::new();
    candidates.push(SlotGroup::Armor(Slot::Helmet, as_choices(helmets)));
    candidates.push(SlotGroup::Armor(Slot::Shield, as_choices(shields)));
    candidates.push(SlotGroup::Armor(Slot::BodyArmor, as_choices(body_armor)));
    candidates.push(SlotGroup::Armor(Slot::LegArmor, as_choices(leg_armor)));
    candidates.push(SlotGroup::Armor(Slot::Boots, as_choices(boots)));
    candidates.push(SlotGroup::Armor(Slot::Ring1, as_choices(rings)));
    candidates.push(SlotGroup::Armor(Slot::Ring2, as_choices(rings2)));
    candidates.push(SlotGroup::Armor(Slot::Amulet, as_choices(amulets)));
    let ghost all = seq![
        SlotGroupView::Armor(Slot::Helmet, v.0),
        SlotGroupView::Armor(Slot::Shield, v.1),
        SlotGroupView::Armor(Slot::BodyArmor, v.2),
        SlotGroupView::Armor(Slot::LegArmor, v.3),
        SlotGroupView::Armor(Slot::Boots, v.4),
        SlotGroupView::Armor(Slot::Ring1, v.5),
        SlotGroupView::Armor(Slot::Ring2, v.6),
        SlotGroupView::Armor(Slot::Amulet, v.7),
    ];
    assert(candidates@.map_values(|g: SlotGroup| group_view(g)) =~= all);
    let res = assemble(&weapon, candidates);
    assert(equipment_groups_of(v.0, v.1, v.2, v.3, v.4, v.5, v.6, v.7) == all.filter(
        |g: SlotGroupView| group_len(g) > 0,
    ));
    res
}

} // verus!
