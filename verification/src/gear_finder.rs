use crate::codes::{code_clone, code_eq, code_le, code_lt, code_lt_exec, code_view, lemma_code_order};
use crate::gear::Slot;
use itertools::Itertools;
use vstd::multiset::Multiset;
use vstd::prelude::*;

verus! {

/// Which items the gear finder considers.
#[derive(Debug, Clone, Copy, PartialEq, Eq, Structural)]
pub struct Filter {
    pub available: bool,
    pub craftable: bool,
    pub from_task: bool,
    pub from_npc: bool,
    pub from_monster: bool,
    pub utilities: bool,
}

impl Default for Filter {
    /// Every source of items, available or not, utilities left out.
    fn default() -> (res: Self)
        ensures
            res == (Filter {
                available: false,
                craftable: true,
                from_task: true,
                from_npc: true,
                from_monster: true,
                utilities: false,
            }),
    {
        Filter {
            available: false,
            craftable: true,
            from_task: true,
            from_npc: true,
            from_monster: true,
            utilities: false,
        }
    }
}

/// Optional item codes, as values.
pub type Codes = Seq<Option<Seq<char>>>;

pub open spec fn codes_view(v: Seq<Option<String>>) -> Codes {
    v.map_values(|c: Option<String>| code_view(c))
}

/// The smaller of two optional codes first.
pub open spec fn sort2(a: Option<Seq<char>>, b: Option<Seq<char>>) -> (Option<Seq<char>>, Option<Seq<char>>) {
    if code_lt(b, a) {
        (b, a)
    } else {
        (a, b)
    }
}

/// Three optional codes in ascending order.
pub open spec fn sort3(a: Option<Seq<char>>, b: Option<Seq<char>>, c: Option<Seq<char>>) -> Codes {
    let (x, y) = sort2(a, b);
    let (y2, z) = sort2(y, c);
    let (x2, y3) = sort2(x, y2);
    seq![x2, y3, z]
}

/// A pair of rings: none when both are missing, the two sorted otherwise.
pub open spec fn ring_set_of(r: Codes) -> Option<Codes> {
    if r[0] is None && r[1] is None {
        None
    } else {
        let (a, b) = sort2(r[0], r[1]);
        Some(seq![a, b])
    }
}

/// Two utilities: none when they are the same item or both are missing, the two
/// sorted otherwise.
pub open spec fn utility_set_of(u: Codes) -> Option<Codes> {
    if (u[0] is Some && u[0] == u[1]) || (u[0] is None && u[1] is None) {
        None
    } else {
        let (a, b) = sort2(u[0], u[1]);
        Some(seq![a, b])
    }
}

/// Three artifacts: none when two are the same item or all are missing, the three
/// sorted otherwise.
pub open spec fn artifact_set_of(a: Codes) -> Option<Codes> {
    if (a[0] is Some && a[0] == a[1]) || (a[1] is Some && a[1] == a[2]) || (a[0] is Some && a[0]
        == a[2]) || (a[0] is None && a[1] is None && a[2] is None) {
        None
    } else {
        Some(sort3(a[0], a[1], a[2]))
    }
}

/// A set of two rings, sorted.
#[derive(Debug, PartialEq, Eq, Hash)]
pub struct RingSet {
    rings: [Option<String>; 2],
}

/// A set of three artifacts, sorted.
#[derive(Debug, PartialEq, Eq, Hash)]
pub struct ArtifactSet {
    artifacts: [Option<String>; 3],
}

/// A set of two utilities, sorted.
#[derive(Debug, PartialEq, Eq, Hash)]
pub struct UtilitySet {
    utilities: [Option<String>; 2],
}

impl View for RingSet {
    type V = Codes;

    closed spec fn view(&self) -> Codes {
        codes_view(self.rings@)
    }
}

impl View for ArtifactSet {
    type V = Codes;

    closed spec fn view(&self) -> Codes {
        codes_view(self.artifacts@)
    }
}

impl View for UtilitySet {
    type V = Codes;

    closed spec fn view(&self) -> Codes {
        codes_view(self.utilities@)
    }
}

/// The items the gear finder combines into gears, as a choice for one slot or for
/// a group of slots.
#[derive(Debug, PartialEq, Eq)]
pub enum ItemWrapper {
    Armor(Option<String>),
    Rings(RingSet),
    Artifacts(ArtifactSet),
    Utility(UtilitySet),
}

pub enum ItemWrapperView {
    Armor(Option<Seq<char>>),
    Rings(Codes),
    Artifacts(Codes),
    Utility(Codes),
}

impl View for ItemWrapper {
    type V = ItemWrapperView;

    open spec fn view(&self) -> ItemWrapperView {
        match self {
            ItemWrapper::Armor(a) => ItemWrapperView::Armor(code_view(*a)),
            ItemWrapper::Rings(r) => ItemWrapperView::Rings(r@),
            ItemWrapper::Artifacts(a) => ItemWrapperView::Artifacts(a@),
            ItemWrapper::Utility(u) => ItemWrapperView::Utility(u@),
        }
    }
}

pub open spec fn wrappers_view(v: Seq<ItemWrapper>) -> Seq<ItemWrapperView> {
    v.map_values(|w: ItemWrapper| w@)
}

fn sort_two(a: &Option<String>, b: &Option<String>) -> (res: (Option<String>, Option<String>))
    ensures
        (code_view(res.0), code_view(res.1)) == sort2(code_view(*a), code_view(*b)),
{
    if code_lt_exec(b, a) {
        (code_clone(b), code_clone(a))
    } else {
        (code_clone(a), code_clone(b))
    }
}

impl RingSet {
    /// The set of the two rings, sorted; none when both are missing.
    pub fn new(rings: [Option<String>; 2]) -> (res: Option<Self>)
        ensures
            match res {
                Some(s) => ring_set_of(codes_view(rings@)) == Some(s@),
                None => ring_set_of(codes_view(rings@)) is None,
            },
    {
        if rings[0].is_none() && rings[1].is_none() {
            None
        } else {
            let (a, b) = sort_two(&rings[0], &rings[1]);
            let res = RingSet { rings: [a, b] };
            assert(res@ =~= seq![code_view(res.rings@[0]), code_view(res.rings@[1])]);
            Some(res)
        }
    }

    /// The ring for `slot`: the first ring for the first ring slot, the second for
    /// the second; none for the other slots.
    pub fn slot(&self, slot: Slot) -> (res: &Option<String>)
        ensures
            code_view(*res) == match slot {
                Slot::Ring1 => self@[0],
                Slot::Ring2 => self@[1],
                _ => None,
            },
    {
        match slot {
            Slot::Ring1 => self.ring1(),
            Slot::Ring2 => self.ring2(),
            _ => &None,
        }
    }

    pub fn ring1(&self) -> (res: &Option<String>)
        ensures
            code_view(*res) == self@[0],
    {
        &self.rings[0]
    }

    pub fn ring2(&self) -> (res: &Option<String>)
        ensures
            code_view(*res) == self@[1],
    {
        &self.rings[1]
    }
}

impl UtilitySet {
    /// The set of the two utilities, sorted; none when they are the same item or both
    /// are missing.
    pub fn new(utilities: [Option<String>; 2]) -> (res: Option<Self>)
        ensures
            match res {
                Some(s) => utility_set_of(codes_view(utilities@)) == Some(s@),
                None => utility_set_of(codes_view(utilities@)) is None,
            },
    {
        if utilities[0].is_some() && code_eq(&utilities[0], &utilities[1]) || utilities[0].is_none()
            && utilities[1].is_none() {
            None
        } else {
            let (a, b) = sort_two(&utilities[0], &utilities[1]);
            let res = UtilitySet { utilities: [a, b] };
            assert(res@ =~= seq![code_view(res.utilities@[0]), code_view(res.utilities@[1])]);
            Some(res)
        }
    }

    /// The utility for `slot`; none for the slots that are not utility slots.
    pub fn slot(&self, slot: Slot) -> (res: &Option<String>)
        ensures
            code_view(*res) == match slot {
                Slot::Utility1 => self@[0],
                Slot::Utility2 => self@[1],
                _ => None,
            },
    {
        match slot {
            Slot::Utility1 => self.utility1(),
            Slot::Utility2 => self.utility2(),
            _ => &None,
        }
    }

    pub fn utility1(&self) -> (res: &Option<String>)
        ensures
            code_view(*res) == self@[0],
    {
        &self.utilities[0]
    }

    pub fn utility2(&self) -> (res: &Option<String>)
        ensures
            code_view(*res) == self@[1],
    {
        &self.utilities[1]
    }
}

impl ArtifactSet {
    /// The set of the three artifacts, sorted; none when two are the same item or all
    /// are missing.
    pub fn new(artifacts: [Option<String>; 3]) -> (res: Option<Self>)
        ensures
            match res {
                Some(s) => artifact_set_of(codes_view(artifacts@)) == Some(s@),
                None => artifact_set_of(codes_view(artifacts@)) is None,
            },
    {
        if artifacts[0].is_some() && code_eq(&artifacts[0], &artifacts[1]) || artifacts[1].is_some()
            && code_eq(&artifacts[1], &artifacts[2]) || artifacts[0].is_some() && code_eq(
            &artifacts[0],
            &artifacts[2],
        ) || (artifacts[0].is_none() && artifacts[1].is_none() && artifacts[2].is_none()) {
            None
        } else {
            let (x, y) = sort_two(&artifacts[0], &artifacts[1]);
            let (y2, z) = sort_two(&y, &artifacts[2]);
            let (x2, y3) = sort_two(&x, &y2);
            let res = ArtifactSet { artifacts: [x2, y3, z] };
            assert(res@ =~= seq![
                code_view(res.artifacts@[0]),
                code_view(res.artifacts@[1]),
                code_view(res.artifacts@[2]),
            ]);
            Some(res)
        }
    }

    /// The artifact for `slot`; none for the slots that are not artifact slots.
    pub fn slot(&self, slot: Slot) -> (res: &Option<String>)
        ensures
            code_view(*res) == match slot {
                Slot::Artifact1 => self@[0],
                Slot::Artifact2 => self@[1],
                Slot::Artifact3 => self@[2],
                _ => None,
            },
    {
        match slot {
            Slot::Artifact1 => self.artifact1(),
            Slot::Artifact2 => self.artifact2(),
            Slot::Artifact3 => self.artifact3(),
            _ => &None,
        }
    }

    pub fn artifact1(&self) -> (res: &Option<String>)
        ensures
            code_view(*res) == self@[0],
    {
        &self.artifacts[0]
    }

    pub fn artifact2(&self) -> (res: &Option<String>)
        ensures
            code_view(*res) == self@[1],
    {
        &self.artifacts[1]
    }

    pub fn artifact3(&self) -> (res: &Option<String>)
        ensures
            code_view(*res) == self@[2],
    {
        &self.artifacts[2]
    }
}

/// Each set is sorted and holds the codes it was made of.
pub proof fn law_sets_are_sorted(a: Codes)
    requires
        a.len() == 3,
    ensures
        ring_set_of(a) matches Some(r) ==> code_le(r[0], r[1]) && r.to_multiset() == a.take(
            2,
        ).to_multiset(),
        utility_set_of(a) matches Some(u) ==> code_lt(u[0], u[1]) && u.to_multiset() == a.take(
            2,
        ).to_multiset(),
        artifact_set_of(a) matches Some(s) ==> code_le(s[0], s[1]) && code_le(s[1], s[2])
            && s.to_multiset() == a.to_multiset(),
{
    lemma_code_order(a[0], a[1], a[2]);
    lemma_code_order(a[1], a[0], a[2]);
    lemma_code_order(a[0], a[2], a[1]);
    lemma_code_order(a[2], a[0], a[1]);
    lemma_code_order(a[1], a[2], a[0]);
    lemma_code_order(a[2], a[1], a[0]);
    lemma_code_order(a[0], a[0], a[0]);
    lemma_code_order(a[1], a[1], a[1]);
    lemma_code_order(a[2], a[2], a[2]);
    broadcast use vstd::multiset::group_multiset_axioms;
    broadcast use vstd::seq_lib::group_to_multiset_ensures;
    assert(a.take(2) =~= seq![a[0], a[1]]);
    assert(a =~= seq![a[0], a[1], a[2]]);
    assert(seq![a[1], a[0]].to_multiset() =~= seq![a[0], a[1]].to_multiset()) by {
        assert(seq![a[1], a[0]] =~= seq![a[1]].push(a[0]));
        assert(seq![a[0], a[1]] =~= seq![a[0]].push(a[1]));
        assert(seq![a[1]] =~= Seq::<Option<Seq<char>>>::empty().push(a[1]));
        assert(seq![a[0]] =~= Seq::<Option<Seq<char>>>::empty().push(a[0]));
    }
    lemma_sort3_perm(a[0], a[1], a[2]);
}

proof fn lemma_seq3_multiset(x: Option<Seq<char>>, y: Option<Seq<char>>, z: Option<Seq<char>>)
    ensures
        seq![x, y, z].to_multiset() =~= Multiset::empty().insert(x).insert(y).insert(z),
{
    broadcast use vstd::seq_lib::group_to_multiset_ensures;
    assert(seq![x, y, z] =~= Seq::<Option<Seq<char>>>::empty().push(x).push(y).push(z));
    assert(Seq::<Option<Seq<char>>>::empty().to_multiset() =~= Multiset::empty());
}

proof fn lemma_sort3_perm(a: Option<Seq<char>>, b: Option<Seq<char>>, c: Option<Seq<char>>)
    ensures
        sort3(a, b, c).to_multiset() == seq![a, b, c].to_multiset(),
        code_le(sort3(a, b, c)[0], sort3(a, b, c)[1]),
        code_le(sort3(a, b, c)[1], sort3(a, b, c)[2]),
{
    broadcast use vstd::multiset::group_multiset_axioms;
    lemma_code_order(a, b, c);
    lemma_code_order(a, c, b);
    lemma_code_order(b, a, c);
    lemma_code_order(b, c, a);
    lemma_code_order(c, a, b);
    lemma_code_order(c, b, a);
    let s = sort3(a, b, c);
    lemma_seq3_multiset(s[0], s[1], s[2]);
    lemma_seq3_multiset(a, b, c);
    assert(s =~= seq![s[0], s[1], s[2]]);
    assert(Multiset::empty().insert(s[0]).insert(s[1]).insert(s[2]) =~= Multiset::empty().insert(
        a,
    ).insert(b).insert(c));
}

/// The pairs made of an element of `a` and an element of `b`, in the order of `a`,
/// then of `b`.
pub open spec fn pairs_product(a: Codes, b: Codes) -> Seq<Codes>
    decreases a.len(),
{
    if a.len() == 0 {
        Seq::empty()
    } else {
        pairs_product(a.drop_last(), b) + b.map_values(|y: Option<Seq<char>>| seq![a.last(), y])
    }
}

/// The triples made of an element of each of `a`, `b` and `c`, in the order of `a`,
/// then of `b`, then of `c`.
pub open spec fn triples_product(a: Codes, b: Codes, c: Codes) -> Seq<Codes>
    decreases a.len(),
{
    if a.len() == 0 {
        Seq::empty()
    } else {
        triples_product(a.drop_last(), b, c) + pairs_product(b, c).map_values(
            |p: Codes| seq![a.last()] + p,
        )
    }
}

/// The lexicographic order of lists of optional codes.
pub open spec fn codes_lt(x: Codes, y: Codes) -> bool
    decreases x.len(),
{
    if x.len() == 0 || y.len() == 0 {
        x.len() < y.len()
    } else if x[0] != y[0] {
        code_lt(x[0], y[0])
    } else {
        codes_lt(x.drop_first(), y.drop_first())
    }
}

pub open spec fn codes_le(x: Codes, y: Codes) -> bool {
    x == y || codes_lt(x, y)
}

/// `s` holds the elements of `t`, sorted.
pub open spec fn is_sorted_permutation(s: Seq<Codes>, t: Seq<Codes>) -> bool {
    &&& forall|i: int, j: int| 0 <= i < j < s.len() ==> codes_le(#[trigger] s[i], #[trigger] s[j])
    &&& s.to_multiset() == t.to_multiset()
}

/// Consecutive equal elements of `v` kept once.
pub open spec fn dedup_spec<T>(v: Seq<T>) -> Seq<T>
    decreases v.len(),
{
    if v.len() <= 1 {
        v
    } else if v.last() == v[v.len() - 2] {
        dedup_spec(v.drop_last())
    } else {
        dedup_spec(v.drop_last()).push(v.last())
    }
}

/// The ring sets made from `s`, in order, the pairs that make none left out.
pub open spec fn ring_sets_of(s: Seq<Codes>) -> Seq<ItemWrapperView>
    decreases s.len(),
{
    if s.len() == 0 {
        Seq::empty()
    } else {
        match ring_set_of(s.last()) {
            Some(r) => ring_sets_of(s.drop_last()).push(ItemWrapperView::Rings(r)),
            None => ring_sets_of(s.drop_last()),
        }
    }
}

pub open spec fn utility_sets_of(s: Seq<Codes>) -> Seq<ItemWrapperView>
    decreases s.len(),
{
    if s.len() == 0 {
        Seq::empty()
    } else {
        match utility_set_of(s.last()) {
            Some(r) => utility_sets_of(s.drop_last()).push(ItemWrapperView::Utility(r)),
            None => utility_sets_of(s.drop_last()),
        }
    }
}

pub open spec fn artifact_sets_of(s: Seq<Codes>) -> Seq<ItemWrapperView>
    decreases s.len(),
{
    if s.len() == 0 {
        Seq::empty()
    } else {
        match artifact_set_of(s.last()) {
            Some(r) => artifact_sets_of(s.drop_last()).push(ItemWrapperView::Artifacts(r)),
            None => artifact_sets_of(s.drop_last()),
        }
    }
}

pub open spec fn pairs_view(v: Seq<[Option<String>; 2]>) -> Seq<Codes> {
    v.map_values(|p: [Option<String>; 2]| codes_view(p@))
}

pub open spec fn triples_view(v: Seq<[Option<String>; 3]>) -> Seq<Codes> {
    v.map_values(|p: [Option<String>; 3]| codes_view(p@))
}

/// Calls `Itertools::multi_cartesian_product` on `a` and `b`, which lists the pairs
/// of an element of `a` and an element of `b`, the last element varying fastest.
#[verifier::external_body]
fn product_of_pairs(a: &Vec<Option<String>>, b: &Vec<Option<String>>) -> (res: Vec<[Option<String>; 2]>)
    ensures
        pairs_view(res@) == pairs_product(codes_view(a@), codes_view(b@)),
{
    [a, b].iter().map(|v| v.iter()).multi_cartesian_product().map(|p| [p[0].clone(), p[1].clone()]).collect()
}

/// Calls `Itertools::multi_cartesian_product` on `a`, `b` and `c`, which lists the
/// triples of an element of each, the last element varying fastest.
#[verifier::external_body]
fn product_of_triples(a: &Vec<Option<String>>, b: &Vec<Option<String>>, c: &Vec<Option<String>>) -> (res: Vec<[Option<String>; 3]>)
    ensures
        triples_view(res@) == triples_product(codes_view(a@), codes_view(b@), codes_view(c@)),
{
    [a, b, c].iter().map(|v| v.iter()).multi_cartesian_product().map(
        |p| [p[0].clone(), p[1].clone(), p[2].clone()],
    ).collect()
}

/// Calls `Itertools::sorted` on pairs: the same pairs, in ascending order (`None`
/// before any code, codes by their characters).
#[verifier::external_body]
fn sorted_pairs(v: Vec<[Option<String>; 2]>) -> (res: Vec<[Option<String>; 2]>)
    ensures
        is_sorted_permutation(pairs_view(res@), pairs_view(v@)),
{
    v.into_iter().sorted().collect()
}

/// Calls `Itertools::sorted` on triples: the same triples, in ascending order.
#[verifier::external_body]
fn sorted_triples(v: Vec<[Option<String>; 3]>) -> (res: Vec<[Option<String>; 3]>)
    ensures
        is_sorted_permutation(triples_view(res@), triples_view(v@)),
{
    v.into_iter().sorted().collect()
}

/// Calls `Itertools::dedup`, which keeps one of each run of consecutive equal items.
#[verifier::external_body]
fn dedup_wrappers(v: Vec<ItemWrapper>) -> (res: Vec<ItemWrapper>)
    ensures
        wrappers_view(res@) == dedup_spec(wrappers_view(v@)),
{
    v.into_iter().dedup().collect()
}

/// The sets of two rings, one of `rings1` and one of `rings2`, without repeating a
/// set in a row.
pub fn gen_ring_sets(rings1: Vec<Option<String>>, rings2: Vec<Option<String>>) -> (res: Vec<ItemWrapper>)
    ensures
        exists|s: Seq<Codes>|
            is_sorted_permutation(s, pairs_product(codes_view(rings1@), codes_view(rings2@)))
                && wrappers_view(res@) == dedup_spec(ring_sets_of(s)),
{
    let pairs = sorted_pairs(product_of_pairs(&rings1, &rings2));
    let ghost s = pairs_view(pairs@);
    let mut sets: Vec<ItemWrapper> = Vec::new();
    let mut i: usize = 0;
    while i < pairs.len()
        invariant
            i <= pairs.len(),
            s == pairs_view(pairs@),
            wrappers_view(sets@) == ring_sets_of(s.take(i as int)),
        decreases pairs.len() - i,
    {
        assert(s.take(i + 1).drop_last() =~= s.take(i as int));
        assert(s.take(i + 1).last() == s[i as int]);
        let pair = [code_clone(&pairs[i][0]), code_clone(&pairs[i][1])];
        assert(codes_view(pair@) =~= s[i as int]);
        match RingSet::new(pair) {
            Some(r) => {
                sets.push(ItemWrapper::Rings(r));
            },
            None => {},
        }
        assert(wrappers_view(sets@) =~= ring_sets_of(s.take(i + 1)));
        i = i + 1;
    }
    assert(s.take(i as int) =~= s);
    dedup_wrappers(sets)
}

/// The sets of two utilities from `utilities`, without repeating a set in a row.
pub fn gen_utility_sets(utilities: Vec<Option<String>>) -> (res: Vec<ItemWrapper>)
    ensures
        exists|s: Seq<Codes>|
            is_sorted_permutation(s, pairs_product(codes_view(utilities@), codes_view(utilities@)))
                && wrappers_view(res@) == dedup_spec(utility_sets_of(s)),
{
    let pairs = sorted_pairs(product_of_pairs(&utilities, &utilities));
    let ghost s = pairs_view(pairs@);
    let mut sets: Vec<ItemWrapper> = Vec::new();
    let mut i: usize = 0;
    while i < pairs.len()
        invariant
            i <= pairs.len(),
            s == pairs_view(pairs@),
            wrappers_view(sets@) == utility_sets_of(s.take(i as int)),
        decreases pairs.len() - i,
    {
        assert(s.take(i + 1).drop_last() =~= s.take(i as int));
        assert(s.take(i + 1).last() == s[i as int]);
        let pair = [code_clone(&pairs[i][0]), code_clone(&pairs[i][1])];
        assert(codes_view(pair@) =~= s[i as int]);
        match UtilitySet::new(pair) {
            Some(u) => {
                sets.push(ItemWrapper::Utility(u));
            },
            None => {},
        }
        assert(wrappers_view(sets@) =~= utility_sets_of(s.take(i + 1)));
        i = i + 1;
    }
    assert(s.take(i as int) =~= s);
    dedup_wrappers(sets)
}

/// The sets of three artifacts from `artifacts`, without repeating a set in a row.
pub fn gen_artifacts_sets(artifacts: Vec<Option<String>>) -> (res: Vec<ItemWrapper>)
    ensures
        exists|s: Seq<Codes>|
            is_sorted_permutation(
                s,
                triples_product(codes_view(artifacts@), codes_view(artifacts@), codes_view(artifacts@)),
            ) && wrappers_view(res@) == dedup_spec(artifact_sets_of(s)),
{
    let triples = sorted_triples(product_of_triples(&artifacts, &artifacts, &artifacts));
    let ghost s = triples_view(triples@);
    let mut sets: Vec<ItemWrapper> = Vec::new();
    let mut i: usize = 0;
    while i < triples.len()
        invariant
            i <= triples.len(),
            s == triples_view(triples@),
            wrappers_view(sets@) == artifact_sets_of(s.take(i as int)),
        decreases triples.len() - i,
    {
        assert(s.take(i + 1).drop_last() =~= s.take(i as int));
        assert(s.take(i + 1).last() == s[i as int]);
        let triple = [
            code_clone(&triples[i][0]),
            code_clone(&triples[i][1]),
            code_clone(&triples[i][2]),
        ];
        assert(codes_view(triple@) =~= s[i as int]);
        match ArtifactSet::new(triple) {
            Some(a) => {
                sets.push(ItemWrapper::Artifacts(a));
            },
            None => {},
        }
        assert(wrappers_view(sets@) =~= artifact_sets_of(s.take(i + 1)));
        i = i + 1;
    }
    assert(s.take(i as int) =~= s);
    dedup_wrappers(sets)
}

/// What the gear finder knows of an item when it decides whether to consider it:
/// its code, whether the character meets its conditions, the quantity available to
/// the character, whether it is crafted and the account can craft it, whether an
/// NPC sells it, whether it is crafted from task rewards and whether its best source
/// is a monster.
#[derive(Debug)]
pub struct ItemFacts {
    pub code: String,
    pub meets_conditions: bool,
    pub available: u32,
    pub craftable: bool,
    pub can_craft: bool,
    pub buyable: bool,
    pub crafted_from_task: bool,
    pub from_monster: bool,
}

/// Items never worn in a gear of the finder's own choosing.
pub open spec fn set_aside(code: Seq<char>) -> bool {
    code == "steel_gloves"@ || code == "leather_gloves"@ || code == "conjurer_cloak"@
}

/// Whether the finder considers the item under `filter`: the character must meet its
/// conditions; with `available` set, it must have some of it at hand; otherwise the
/// item must not be set aside, nor crafted by no one of the account when craftable
/// items are asked for, nor come from a source that the filter leaves out.
pub open spec fn eligible(item: ItemFacts, filter: Filter) -> bool {
    &&& item.meets_conditions
    &&& if filter.available {
        item.available > 0
    } else {
        &&& !set_aside(item.code@)
        &&& !(filter.craftable && item.craftable && !item.can_craft)
        &&& !(!filter.from_npc && item.buyable)
        &&& !(!filter.from_task && item.crafted_from_task)
        &&& !(!filter.from_monster && item.from_monster)
    }
}

/// Whether the gear finder considers `item` under `filter`.
pub fn is_eligible(item: &ItemFacts, filter: Filter) -> (res: bool)
    ensures
        res == eligible(*item, filter),
{
    if !item.meets_conditions {
        return false;
    }
    if filter.available {
        return item.available > 0;
    }
    if item.code == "steel_gloves".to_owned() || item.code == "leather_gloves".to_owned()
        || item.code == "conjurer_cloak".to_owned() {
        return false;
    }
    if filter.craftable && item.craftable && !item.can_craft {
        return false;
    }
    if !filter.from_npc && item.buyable {
        return false;
    }
    if !filter.from_task && item.crafted_from_task {
        return false;
    }
    if !filter.from_monster && item.from_monster {
        return false;
    }
    true
}

/// An item the account can craft is considered whether it is craftable or not: with
/// the `available` filter off, an item that meets the conditions, is not set aside
/// and comes from no source the filter leaves out is considered when some character
/// of the account can craft it.
pub proof fn law_craftable_by_account_is_eligible(item: ItemFacts, filter: Filter)
    requires
        !filter.available,
        item.meets_conditions,
        !set_aside(item.code@),
        item.can_craft,
        filter.from_npc || !item.buyable,
        filter.from_task || !item.crafted_from_task,
        filter.from_monster || !item.from_monster,
    ensures
        eligible(item, filter),
{
}

/// Being craftable changes whether an item is considered only for an item that no
/// character of the account can craft, and only under the `craftable` filter: for
/// any other item or filter, an item and the same item with `craftable` flipped are
/// considered alike. Under the `available` filter, an item is considered exactly
/// when it meets the conditions and some of it is at hand.
pub proof fn law_craftable_refuses_only_uncraftable(item: ItemFacts, filter: Filter)
    ensures
        (item.can_craft || !filter.craftable) ==> eligible(
            (ItemFacts { craftable: !item.craftable, ..item }),
            filter,
        ) == eligible(item, filter),
        filter.available ==> (eligible(item, filter) <==> (item.meets_conditions && item.available > 0)),
{
}

/// The code that wrapper `w` holds for `slot`.
pub open spec fn wrapper_slot_code(w: ItemWrapperView, slot: Slot) -> Option<Seq<char>> {
    match w {
        ItemWrapperView::Armor(a) => a,
        ItemWrapperView::Rings(r) => match slot {
            Slot::Ring1 => r[0],
            Slot::Ring2 => r[1],
            _ => None,
        },
        ItemWrapperView::Artifacts(a) => match slot {
            Slot::Artifact1 => a[0],
            Slot::Artifact2 => a[1],
            Slot::Artifact3 => a[2],
            _ => None,
        },
        ItemWrapperView::Utility(u) => match slot {
            Slot::Utility1 => u[0],
            Slot::Utility2 => u[1],
            _ => None,
        },
    }
}

/// The first code, in the order of `ws`, that a wrapper holds for `slot` and that
/// names an item of `fitting`.
pub open spec fn code_from_wrappers(ws: Seq<ItemWrapperView>, slot: Slot, fitting: Seq<Seq<char>>) -> Option<
    Seq<char>,
>
    decreases ws.len(),
{
    if ws.len() == 0 {
        None
    } else {
        match wrapper_slot_code(ws[0], slot) {
            Some(c) => if fitting.contains(c) {
                Some(c)
            } else {
                code_from_wrappers(ws.drop_first(), slot, fitting)
            },
            None => code_from_wrappers(ws.drop_first(), slot, fitting),
        }
    }
}

/// The code that `w` holds for `slot`.
fn wrapper_code(w: &ItemWrapper, slot: Slot) -> (res: &Option<String>)
    ensures
        code_view(*res) == wrapper_slot_code(w@, slot),
{
    match w {
        ItemWrapper::Armor(a) => a,
        ItemWrapper::Rings(set) => set.slot(slot),
        ItemWrapper::Artifacts(set) => set.slot(slot),
        ItemWrapper::Utility(set) => set.slot(slot),
    }
}

/// Whether `code` is one of `codes`.
fn contains_code(codes: &Vec<String>, code: &String) -> (res: bool)
    ensures
        res == codes@.map_values(|c: String| c@).contains(code@),
{
    let ghost view = codes@.map_values(|c: String| c@);
    let mut i: usize = 0;
    while i < codes.len()
        invariant
            i <= codes.len(),
            view == codes@.map_values(|c: String| c@),
            forall|j: int| 0 <= j < i ==> view[j] != code@,
        decreases codes.len() - i,
    {
        if codes[i] == *code {
            assert(view[i as int] == code@);
            return true;
        }
        i = i + 1;
    }
    assert(!view.contains(code@));
    false
}

/// The code of the item that `wrappers` hold for `slot`: the first one that names an
/// item of the slot's type, the codes of those items being `fitting`.
pub fn item_from_wrappers(wrappers: &[ItemWrapper], slot: Slot, fitting: &Vec<String>) -> (res: Option<String>)
    ensures
        code_view(res) == code_from_wrappers(
            wrappers@.map_values(|w: ItemWrapper| w@),
            slot,
            fitting@.map_values(|c: String| c@),
        ),
{
    let ghost ws = wrappers@.map_values(|w: ItemWrapper| w@);
    let ghost fit = fitting@.map_values(|c: String| c@);
    assert(ws.skip(0) =~= ws);
    let mut i: usize = 0;
    while i < wrappers.len()
        invariant
            i <= wrappers.len(),
            ws == wrappers@.map_values(|w: ItemWrapper| w@),
            fit == fitting@.map_values(|c: String| c@),
            code_from_wrappers(ws, slot, fit) == code_from_wrappers(ws.skip(i as int), slot, fit),
        decreases wrappers.len() - i,
    {
        let ghost rest = ws.skip(i as int);
        assert(rest[0] == ws[i as int]);
        assert(rest.drop_first() =~= ws.skip(i + 1));
        let c = wrapper_code(&wrappers[i], slot);
        if let Some(code) = c {
            if contains_code(fitting, code) {
                return Some(code.clone());
            }
        }
        i = i + 1;
    }
    assert(ws.skip(i as int).len() == 0);
    None
}

} // verus!
