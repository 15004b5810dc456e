use crate::schema::{items_view, total_in, total_of, ItemQuantity, SimpleItemSchema};
use vstd::prelude::*;

verus! {

/// A quantity of an item held in the bank for one character.
#[derive(Debug)]
pub struct BankReservation {
    item: String,
    quantity: u32,
    owner: String,
}

/// What a bank reservation stands for.
pub struct ReservationView {
    pub item: Seq<char>,
    pub owner: Seq<char>,
    pub quantity: nat,
}

impl View for BankReservation {
    type V = ReservationView;

    closed spec fn view(&self) -> ReservationView {
        ReservationView { item: self.item@, owner: self.owner@, quantity: self.quantity as nat }
    }
}

impl BankReservation {
    pub fn item(&self) -> (res: &String)
        ensures
            res@ == self@.item,
    {
        &self.item
    }

    pub fn owner(&self) -> (res: &String)
        ensures
            res@ == self@.owner,
    {
        &self.owner
    }

    pub fn quantity(&self) -> (res: u32)
        ensures
            res == self@.quantity,
    {
        self.quantity
    }

    /// A copy of this reservation.
    pub fn duplicate(&self) -> (res: Self)
        ensures
            res@ == self@,
    {
        BankReservation { item: self.item.clone(), quantity: self.quantity, owner: self.owner.clone() }
    }

    /// Equality of item, quantity and owner.
    pub fn same_as(&self, other: &BankReservation) -> (res: bool)
        ensures
            res == (self@ == other@),
    {
        self.item == other.item && self.quantity == other.quantity && self.owner == other.owner
    }
}

/// The error of a reservation that the bank cannot back.
#[derive(Debug, PartialEq, Eq, Structural)]
pub enum BankReservationError {
    QuantityUnavailable(u32),
}

/// What the bank holds and what is reserved in it.
pub struct BankView {
    pub content: Seq<ItemQuantity>,
    pub reservations: Seq<ReservationView>,
}

/// Whether `r` is the reservation of `item` for `owner`.
pub open spec fn is_key(r: ReservationView, item: Seq<char>, owner: Seq<char>) -> bool {
    r.item == item && r.owner == owner
}

/// The quantity of `item` reserved, all owners taken together.
pub open spec fn reserved_of(rs: Seq<ReservationView>, item: Seq<char>) -> nat
    decreases rs.len(),
{
    if rs.len() == 0 {
        0
    } else {
        reserved_of(rs.drop_last(), item) + if rs.last().item == item {
            rs.last().quantity
        } else {
            0
        }
    }
}

/// The quantity of `item` reserved for `owner`.
pub open spec fn reserved_for(rs: Seq<ReservationView>, item: Seq<char>, owner: Seq<char>) -> nat
    decreases rs.len(),
{
    if rs.len() == 0 {
        0
    } else {
        reserved_for(rs.drop_last(), item, owner) + if is_key(rs.last(), item, owner) {
            rs.last().quantity
        } else {
            0
        }
    }
}

/// Whether some reservation of `item` for `owner` exists.
pub open spec fn has_key(rs: Seq<ReservationView>, item: Seq<char>, owner: Seq<char>) -> bool {
    exists|i: int| 0 <= i < rs.len() && is_key(#[trigger] rs[i], item, owner)
}

/// The position of the reservation of `item` for `owner`.
pub open spec fn key_index(rs: Seq<ReservationView>, item: Seq<char>, owner: Seq<char>) -> int {
    choose|i: int| 0 <= i < rs.len() && is_key(#[trigger] rs[i], item, owner)
}

/// No two reservations share an item and an owner.
pub open spec fn keys_unique(rs: Seq<ReservationView>) -> bool {
    forall|i: int, j: int|
        0 <= i < rs.len() && 0 <= j < rs.len() && i != j ==> !is_key(
            #[trigger] rs[i],
            rs[j].item,
            #[trigger] rs[j].owner,
        )
}

/// `rs` with the quantity of the reservation at `i` set to `q`.
pub open spec fn with_quantity(rs: Seq<ReservationView>, i: int, q: nat) -> Seq<ReservationView> {
    rs.update(i, ReservationView { quantity: q, ..rs[i] })
}

/// The quantity `a - b`, or 0 when `b` exceeds `a`.
pub open spec fn saturating_sub(a: nat, b: nat) -> nat {
    if a >= b {
        (a - b) as nat
    } else {
        0
    }
}

impl BankView {
    /// The quantity of `item` in the bank.
    pub open spec fn total_of(self, item: Seq<char>) -> nat {
        total_in(self.content, item)
    }

    pub open spec fn reserved(self, item: Seq<char>) -> nat {
        reserved_of(self.reservations, item)
    }

    pub open spec fn reserved_for(self, item: Seq<char>, owner: Seq<char>) -> nat {
        reserved_for(self.reservations, item, owner)
    }

    /// The quantity of `item` reserved for characters other than `owner`.
    pub open spec fn reserved_by_others(self, item: Seq<char>, owner: Seq<char>) -> nat {
        (self.reserved(item) - self.reserved_for(item, owner)) as nat
    }

    /// The quantity of `item` that `owner` may withdraw.
    pub open spec fn available(self, item: Seq<char>, owner: Seq<char>) -> nat {
        saturating_sub(self.total_of(item), self.reserved_by_others(item, owner))
    }

    /// The quantity of `item` that is reserved for nobody.
    pub open spec fn reservable(self, item: Seq<char>) -> nat {
        saturating_sub(self.total_of(item), self.reserved(item))
    }

    pub open spec fn has_reservation(self, item: Seq<char>, owner: Seq<char>) -> bool {
        has_key(self.reservations, item, owner)
    }

    pub open spec fn with_reservations(self, rs: Seq<ReservationView>) -> BankView {
        BankView { content: self.content, reservations: rs }
    }

    /// Reserving `quantity` of `item` for `owner` with no reservation yet: refused
    /// beyond what `owner` may withdraw.
    pub open spec fn after_add(self, item: Seq<char>, quantity: nat, owner: Seq<char>) -> (
        BankView,
        Result<(), BankReservationError>,
    ) {
        if quantity > self.available(item, owner) {
            (self, Err(BankReservationError::QuantityUnavailable(quantity as u32)))
        } else {
            (
                self.with_reservations(
                    self.reservations.push(
                        ReservationView { item: item, owner: owner, quantity: quantity },
                    ),
                ),
                Ok(()),
            )
        }
    }

    /// Adding `quantity` to the reservation of `item` for `owner`, creating it when
    /// there is none.
    pub open spec fn after_inc(self, item: Seq<char>, quantity: nat, owner: Seq<char>) -> (
        BankView,
        Result<(), BankReservationError>,
    ) {
        if self.has_reservation(item, owner) {
            if quantity > self.reservable(item) {
                (self, Err(BankReservationError::QuantityUnavailable(quantity as u32)))
            } else {
                let i = key_index(self.reservations, item, owner);
                (
                    self.with_reservations(
                        with_quantity(
                            self.reservations,
                            i,
                            self.reservations[i].quantity + quantity,
                        ),
                    ),
                    Ok(()),
                )
            }
        } else {
            self.after_add(item, quantity, owner)
        }
    }

    /// Making sure that `quantity` of `item` is reserved for `owner`.
    pub open spec fn after_reserv(self, item: Seq<char>, quantity: nat, owner: Seq<char>) -> (
        BankView,
        Result<(), BankReservationError>,
    ) {
        if self.has_reservation(item, owner) {
            let missing = saturating_sub(quantity, self.reserved_for(item, owner));
            if missing == 0 {
                (self, Ok(()))
            } else {
                self.after_inc(item, missing, owner)
            }
        } else {
            self.after_add(item, quantity, owner)
        }
    }

    /// Taking `quantity` off the reservation of `item` for `owner`; a reservation
    /// that falls to 0 is removed.
    pub open spec fn after_dec(self, item: Seq<char>, quantity: nat, owner: Seq<char>) -> BankView {
        if self.has_reservation(item, owner) {
            let i = key_index(self.reservations, item, owner);
            let left = saturating_sub(self.reservations[i].quantity, quantity);
            if left < 1 {
                self.with_reservations(self.reservations.remove(i))
            } else {
                self.with_reservations(with_quantity(self.reservations, i, left))
            }
        } else {
            self
        }
    }

    /// Reserving each of `items` for `owner` in turn, stopping at the first refusal.
    pub open spec fn after_reserv_all(self, items: Seq<ItemQuantity>, owner: Seq<char>) -> (
        BankView,
        Result<(), BankReservationError>,
    )
        decreases items.len(),
    {
        if items.len() == 0 {
            (self, Ok(()))
        } else {
            let (next, res) = self.after_reserv(items[0].code, items[0].quantity, owner);
            match res {
                Ok(()) => next.after_reserv_all(items.drop_first(), owner),
                Err(e) => (next, Err(e)),
            }
        }
    }

    /// Taking each of `items` off the reservations of `owner` in turn.
    pub open spec fn after_dec_all(self, items: Seq<ItemQuantity>, owner: Seq<char>) -> BankView
        decreases items.len(),
    {
        if items.len() == 0 {
            self
        } else {
            self.after_dec(items[0].code, items[0].quantity, owner).after_dec_all(
                items.drop_first(),
                owner,
            )
        }
    }

    /// The bank is consistent: no two reservations share an item and an owner, and
    /// the reserved quantity of each item fits in a `u32`.
    pub open spec fn wf(self) -> bool {
        &&& keys_unique(self.reservations)
        &&& forall|item: Seq<char>| #[trigger] reserved_of(self.reservations, item) <= u32::MAX
    }
}

/// The quantities of `items` that `owner` is missing in the bank.
pub open spec fn missing_among_spec(bank: BankView, items: Seq<ItemQuantity>, owner: Seq<char>) -> Seq<
    ItemQuantity,
>
    decreases items.len(),
{
    if items.len() == 0 {
        Seq::empty()
    } else {
        let prev = missing_among_spec(bank, items.drop_last(), owner);
        let m = items.last();
        let missing = saturating_sub(m.quantity, bank.available(m.code, owner));
        if missing > 0 {
            prev.push(ItemQuantity { code: m.code, quantity: missing })
        } else {
            prev
        }
    }
}

/// The number of crafts that the materials `mats` available to `owner` allow.
pub open spec fn crafts_allowed(bank: BankView, mats: Seq<ItemQuantity>, owner: Seq<char>) -> nat
    decreases mats.len(),
{
    if mats.len() == 0 {
        0
    } else {
        let here = bank.available(mats.last().code, owner) / mats.last().quantity;
        if mats.len() == 1 {
            here
        } else {
            let rest = crafts_allowed(bank, mats.drop_last(), owner);
            if here < rest {
                here
            } else {
                rest
            }
        }
    }
}

/// The number of crafts the materials allow is at most what each of them allows.
pub proof fn lemma_crafts_allowed_le(bank: BankView, mats: Seq<ItemQuantity>, owner: Seq<char>, i: int)
    requires
        0 <= i < mats.len(),
    ensures
        crafts_allowed(bank, mats, owner) <= bank.available(mats[i].code, owner) / mats[i].quantity,
    decreases mats.len(),
{
    if i < mats.len() - 1 {
        assert(mats.drop_last()[i] == mats[i]);
        lemma_crafts_allowed_le(bank, mats.drop_last(), owner, i);
    }
}

impl BankController {
    /// What the bank holds of an item fits in a `u32`.
    pub proof fn lemma_total_fits(&self, item: Seq<char>)
        ensures
            self@.total_of(item) <= u32::MAX,
    {
        crate::schema::lemma_total_in_fits(self.content@, item);
    }
}

// Facts on reservation sums.
proof fn lemma_reserved_for_le(rs: Seq<ReservationView>, item: Seq<char>, owner: Seq<char>)
    ensures
        reserved_for(rs, item, owner) <= reserved_of(rs, item),
    decreases rs.len(),
{
    if rs.len() > 0 {
        lemma_reserved_for_le(rs.drop_last(), item, owner);
    }
}

proof fn lemma_sums_push(rs: Seq<ReservationView>, r: ReservationView)
    ensures
        forall|item: Seq<char>|
            #[trigger] reserved_of(rs.push(r), item) == reserved_of(rs, item) + if r.item == item {
                r.quantity
            } else {
                0
            },
        forall|item: Seq<char>, owner: Seq<char>|
            #[trigger] reserved_for(rs.push(r), item, owner) == reserved_for(rs, item, owner)
                + if is_key(r, item, owner) {
                r.quantity
            } else {
                0
            },
{
    assert(rs.push(r).drop_last() =~= rs);
}

proof fn lemma_no_key_zero(rs: Seq<ReservationView>, item: Seq<char>, owner: Seq<char>)
    requires
        !has_key(rs, item, owner),
    ensures
        reserved_for(rs, item, owner) == 0,
    decreases rs.len(),
{
    if rs.len() > 0 {
        assert(!is_key(rs[rs.len() - 1], item, owner));
        assert forall|i: int| 0 <= i < rs.drop_last().len() implies !is_key(
            #[trigger] rs.drop_last()[i],
            item,
            owner,
        ) by {
            assert(rs.drop_last()[i] == rs[i]);
        }
        lemma_no_key_zero(rs.drop_last(), item, owner);
    }
}

/// With unique keys, the reserved quantity for a key is that of its reservation.
proof fn lemma_key_quantity(rs: Seq<ReservationView>, k: int)
    requires
        keys_unique(rs),
        0 <= k < rs.len(),
    ensures
        reserved_for(rs, rs[k].item, rs[k].owner) == rs[k].quantity,
    decreases rs.len(),
{
    let item = rs[k].item;
    let owner = rs[k].owner;
    let d = rs.drop_last();
    assert forall|i: int, j: int|
        0 <= i < d.len() && 0 <= j < d.len() && i != j implies !is_key(
        #[trigger] d[i],
        d[j].item,
        #[trigger] d[j].owner,
    ) by {
        assert(d[i] == rs[i] && d[j] == rs[j]);
    }
    if k == rs.len() - 1 {
        assert forall|i: int| 0 <= i < d.len() implies !is_key(#[trigger] d[i], item, owner) by {
            assert(d[i] == rs[i]);
        }
        lemma_no_key_zero(d, item, owner);
    } else {
        assert(d[k] == rs[k]);
        lemma_key_quantity(d, k);
        assert(!is_key(rs.last(), item, owner));
    }
}

proof fn lemma_sums_update(rs: Seq<ReservationView>, k: int, q: nat)
    requires
        0 <= k < rs.len(),
    ensures
        forall|item: Seq<char>|
            #[trigger] reserved_of(with_quantity(rs, k, q), item) == reserved_of(rs, item) - (
            if rs[k].item == item {
                rs[k].quantity
            } else {
                0
            }) + (if rs[k].item == item {
                q
            } else {
                0
            }),
        forall|item: Seq<char>, owner: Seq<char>|
            #[trigger] reserved_for(with_quantity(rs, k, q), item, owner) == reserved_for(
                rs,
                item,
                owner,
            ) - (if is_key(rs[k], item, owner) {
                rs[k].quantity
            } else {
                0
            }) + (if is_key(rs[k], item, owner) {
                q
            } else {
                0
            }),
    decreases rs.len(),
{
    let u = with_quantity(rs, k, q);
    if k == rs.len() - 1 {
        assert(u.drop_last() =~= rs.drop_last());
    } else {
        lemma_sums_update(rs.drop_last(), k, q);
        assert(u.drop_last() =~= with_quantity(rs.drop_last(), k, q));
    }
    assert forall|item: Seq<char>|
        #[trigger] reserved_of(u, item) == reserved_of(rs, item) - (if rs[k].item == item {
            rs[k].quantity
        } else {
            0
        }) + (if rs[k].item == item {
            q
        } else {
            0
        }) by {
        if k == rs.len() - 1 {
        } else {
            assert(reserved_of(u.drop_last(), item) == reserved_of(
                with_quantity(rs.drop_last(), k, q),
                item,
            ));
        }
    }
    assert forall|item: Seq<char>, owner: Seq<char>|
        #[trigger] reserved_for(u, item, owner) == reserved_for(rs, item, owner) - (if is_key(
            rs[k],
            item,
            owner,
        ) {
            rs[k].quantity
        } else {
            0
        }) + (if is_key(rs[k], item, owner) {
            q
        } else {
            0
        }) by {
        if k == rs.len() - 1 {
        } else {
            assert(reserved_for(u.drop_last(), item, owner) == reserved_for(
                with_quantity(rs.drop_last(), k, q),
                item,
                owner,
            ));
        }
    }
}

proof fn lemma_sums_remove(rs: Seq<ReservationView>, k: int)
    requires
        0 <= k < rs.len(),
    ensures
        forall|item: Seq<char>|
            #[trigger] reserved_of(rs.remove(k), item) == reserved_of(rs, item) - (if rs[k].item
                == item {
                rs[k].quantity
            } else {
                0
            }),
        forall|item: Seq<char>, owner: Seq<char>|
            #[trigger] reserved_for(rs.remove(k), item, owner) == reserved_for(rs, item, owner) - (
            if is_key(rs[k], item, owner) {
                rs[k].quantity
            } else {
                0
            }),
    decreases rs.len(),
{
    let u = rs.remove(k);
    if k == rs.len() - 1 {
        assert(u =~= rs.drop_last());
    } else {
        lemma_sums_remove(rs.drop_last(), k);
        assert(u.drop_last() =~= rs.drop_last().remove(k));
        assert(u.last() == rs.last());
        assert forall|item: Seq<char>|
            #[trigger] reserved_of(u, item) == reserved_of(rs, item) - (if rs[k].item == item {
                rs[k].quantity
            } else {
                0
            }) by {
            assert(reserved_of(u.drop_last(), item) == reserved_of(rs.drop_last().remove(k), item));
        }
        assert forall|item: Seq<char>, owner: Seq<char>|
            #[trigger] reserved_for(u, item, owner) == reserved_for(rs, item, owner) - (if is_key(
                rs[k],
                item,
                owner,
            ) {
                rs[k].quantity
            } else {
                0
            }) by {
            assert(reserved_for(u.drop_last(), item, owner) == reserved_for(
                rs.drop_last().remove(k),
                item,
                owner,
            ));
        }
    }
}

/// The bank: what it holds, as the game last reported it, and the reservations
/// that characters hold on its items.
pub struct BankController {
    content: Vec<SimpleItemSchema>,
    reservations: Vec<BankReservation>,
}

impl View for BankController {
    type V = BankView;

    closed spec fn view(&self) -> BankView {
        BankView {
            content: items_view(self.content@),
            reservations: self.reservations@.map_values(|r: BankReservation| r@),
        }
    }
}

impl BankController {
    /// A bank holding `content` and no reservation.
    pub fn new(content: Vec<SimpleItemSchema>) -> (res: Self)
        ensures
            res@.content == items_view(content@),
            res@.reservations == Seq::<ReservationView>::empty(),
            res@.wf(),
    {
        let res = BankController { content, reservations: Vec::new() };
        assert(res@.reservations =~= Seq::<ReservationView>::empty());
        res
    }

    /// Records what the bank now holds; reservations are kept.
    pub fn update_content(&mut self, content: Vec<SimpleItemSchema>)
        ensures
            final(self)@.content == items_view(content@),
            final(self)@.reservations == old(self)@.reservations,
    {
        self.content = content;
    }

    pub fn content(&self) -> (res: &Vec<SimpleItemSchema>)
        ensures
            items_view(res@) == self@.content,
    {
        &self.content
    }

    /// Copies of the reservations held in the bank.
    pub fn reservations(&self) -> (res: Vec<BankReservation>)
        ensures
            res@.map_values(|r: BankReservation| r@) == self@.reservations,
    {
        let mut res: Vec<BankReservation> = Vec::new();
        let mut i: usize = 0;
        while i < self.reservations.len()
            invariant
                i <= self.reservations.len(),
                res@.len() == i,
                forall|j: int| 0 <= j < i ==> #[trigger] res@[j]@ == self.reservations@[j]@,
            decreases self.reservations.len() - i,
        {
            res.push(self.reservations[i].duplicate());
            i = i + 1;
        }
        assert(res@.map_values(|r: BankReservation| r@) =~= self@.reservations);
        res
    }

    /// Returns the quantity of `item` currently in the bank.
    pub fn total_of(&self, item: &String) -> (res: u32)
        ensures
            res == self@.total_of(item@),
    {
        total_of(&self.content, item)
    }

    /// Returns the total quantity of `item` reserved by any character.
    pub fn quantity_reserved(&self, item: &String) -> (res: u32)
        requires
            self@.wf(),
        ensures
            res == self@.reserved(item@),
    {
        let ghost rs = self@.reservations;
        let mut sum: u32 = 0;
        let mut i: usize = 0;
        while i < self.reservations.len()
            invariant
                i <= self.reservations.len(),
                rs == self@.reservations,
                self@.wf(),
                sum == reserved_of(rs.take(i as int), item@),
            decreases self.reservations.len() - i,
        {
            assert(rs.take(i + 1).drop_last() =~= rs.take(i as int));
            proof {
                lemma_prefix_sum_le(rs, i + 1, item@);
            }
            if self.reservations[i].item == *item {
                sum = sum + self.reservations[i].quantity;
            }
            i = i + 1;
        }
        assert(rs.take(i as int) =~= rs);
        sum
    }

    /// Returns the quantity of `item` reserved for characters other than `owner`.
    fn quantity_not_allowed(&self, item: &String, owner: &String) -> (res: u32)
        requires
            self@.wf(),
        ensures
            res == self@.reserved_by_others(item@, owner@),
    {
        let ghost rs = self@.reservations;
        let mut sum: u32 = 0;
        let mut i: usize = 0;
        while i < self.reservations.len()
            invariant
                i <= self.reservations.len(),
                rs == self@.reservations,
                self@.wf(),
                sum == reserved_of(rs.take(i as int), item@) - reserved_for(
                    rs.take(i as int),
                    item@,
                    owner@,
                ),
            decreases self.reservations.len() - i,
        {
            assert(rs.take(i + 1).drop_last() =~= rs.take(i as int));
            proof {
                lemma_prefix_sum_le(rs, i + 1, item@);
                lemma_reserved_for_le(rs.take(i + 1), item@, owner@);
            }
            if self.reservations[i].owner != *owner && self.reservations[i].item == *item {
                sum = sum + self.reservations[i].quantity;
            }
            i = i + 1;
        }
        assert(rs.take(i as int) =~= rs);
        sum
    }

    /// Returns the quantity of `item` available to `owner`: what the bank holds,
    /// less what is reserved for other characters.
    pub fn has_available(&self, item: &String, owner: &String) -> (res: u32)
        requires
            self@.wf(),
        ensures
            res == self@.available(item@, owner@),
    {
        self.total_of(item).saturating_sub(self.quantity_not_allowed(item, owner))
    }

    /// Returns the quantity of `item` reserved for nobody.
    pub fn quantity_reservable(&self, item: &String) -> (res: u32)
        requires
            self@.wf(),
        ensures
            res == self@.reservable(item@),
    {
        self.total_of(item).saturating_sub(self.quantity_reserved(item))
    }

    /// Whether some of `item` is reserved.
    pub fn is_reserved(&self, item: &String) -> (res: bool)
        requires
            self@.wf(),
        ensures
            res == (self@.reserved(item@) > 0),
    {
        self.quantity_reserved(item) > 0
    }

    /// Returns the position of the reservation of `item` for `owner`.
    fn find_reservation(&self, item: &String, owner: &String) -> (res: Option<usize>)
        ensures
            match res {
                Some(i) => i < self@.reservations.len() && is_key(
                    self@.reservations[i as int],
                    item@,
                    owner@,
                ),
                None => !self@.has_reservation(item@, owner@),
            },
    {
        let mut i: usize = 0;
        while i < self.reservations.len()
            invariant
                i <= self.reservations.len(),
                forall|j: int|
                    0 <= j < i ==> !is_key(#[trigger] self@.reservations[j], item@, owner@),
            decreases self.reservations.len() - i,
        {
            if self.reservations[i].item == *item && self.reservations[i].owner == *owner {
                return Some(i);
            }
            i = i + 1;
        }
        None
    }

    /// Returns a copy of the reservation of `item` for `owner`, if there is one.
    pub fn get_reservation(&self, item: &String, owner: &String) -> (res: Option<BankReservation>)
        requires
            self@.wf(),
        ensures
            match res {
                Some(r) => self@.has_reservation(item@, owner@) && r@ == self@.reservations[key_index(
                    self@.reservations,
                    item@,
                    owner@,
                )],
                None => !self@.has_reservation(item@, owner@),
            },
    {
        match self.find_reservation(item, owner) {
            Some(i) => {
                proof {
                    self.lemma_key_index(item@, owner@, i as int);
                }
                Some(self.reservations[i].duplicate())
            },
            None => None,
        }
    }

    proof fn lemma_key_index(&self, item: Seq<char>, owner: Seq<char>, i: int)
        requires
            self@.wf(),
            0 <= i < self@.reservations.len(),
            is_key(self@.reservations[i], item, owner),
        ensures
            self@.has_reservation(item, owner),
            key_index(self@.reservations, item, owner) == i,
            self@.reserved_for(item, owner) == self@.reservations[i].quantity,
    {
        let rs = self@.reservations;
        assert(is_key(rs[i], item, owner));
        let k = key_index(rs, item, owner);
        assert(is_key(rs[k], item, owner));
        lemma_key_quantity(rs, i);
    }

    /// Reserves `quantity` of `item` for `owner`, who holds no reservation of it yet.
    fn add_reservation(&mut self, item: &String, quantity: u32, owner: &String) -> (res: Result<
        (),
        BankReservationError,
    >)
        requires
            old(self)@.wf(),
            !old(self)@.has_reservation(item@, owner@),
        ensures
            (final(self)@, res) == old(self)@.after_add(item@, quantity as nat, owner@),
            final(self)@.wf(),
    {
        if quantity > self.has_available(item, owner) {
            return Err(BankReservationError::QuantityUnavailable(quantity));
        }
        let ghost before = self@;
        let r = BankReservation { item: item.clone(), quantity, owner: owner.clone() };
        proof {
            let rv = r@;
            let rs = before.reservations;
            lemma_sums_push(rs, rv);
            lemma_no_key_zero(rs, item@, owner@);
            lemma_reserved_for_le(rs, item@, owner@);
            assert forall|it: Seq<char>| #[trigger]
                reserved_of(rs.push(rv), it) <= u32::MAX by {
                assert(reserved_of(rs, it) <= u32::MAX);
                if it == item@ {
                    assert(before.total_of(item@) <= u32::MAX) by {
                        lemma_total_in_bound(self.content@, item@);
                    }
                }
            }
        }
        self.reservations.push(r);
        assert(self@.reservations =~= before.reservations.push(
            ReservationView { item: item@, owner: owner@, quantity: quantity as nat },
        ));
        Ok(())
    }

    /// Adds `quantity` to the reservation of `item` for `owner`, or creates it.
    /// Refused when more than is reserved for nobody, or, for a new reservation,
    /// more than `owner` may withdraw, is asked.
    pub fn inc_reservation(&mut self, item: &String, quantity: u32, owner: &String) -> (res: Result<
        (),
        BankReservationError,
    >)
        requires
            old(self)@.wf(),
        ensures
            (final(self)@, res) == old(self)@.after_inc(item@, quantity as nat, owner@),
            final(self)@.wf(),
    {
        match self.find_reservation(item, owner) {
            Some(i) => {
                proof {
                    self.lemma_key_index(item@, owner@, i as int);
                }
                if quantity > self.quantity_reservable(item) {
                    return Err(BankReservationError::QuantityUnavailable(quantity));
                }
                let ghost before = self@;
                proof {
                    lemma_reserved_for_le(before.reservations, item@, owner@);
                    lemma_total_in_bound(self.content@, item@);
                }
                let old_q = self.reservations[i].quantity;
                let r = BankReservation {
                    item: item.clone(),
                    quantity: old_q + quantity,
                    owner: owner.clone(),
                };
                self.reservations.set(i, r);
                proof {
                    let rs = before.reservations;
                    let q = (old_q + quantity) as nat;
                    assert(self@.reservations =~= with_quantity(rs, i as int, q));
                    lemma_sums_update(rs, i as int, q);
                    self.lemma_unique_after_update(rs, i as int, q);
                    assert forall|it: Seq<char>| #[trigger]
                        reserved_of(with_quantity(rs, i as int, q), it) <= u32::MAX by {
                        assert(reserved_of(rs, it) <= u32::MAX);
                    }
                }
                Ok(())
            },
            None => self.add_reservation(item, quantity, owner),
        }
    }

    proof fn lemma_unique_after_update(&self, rs: Seq<ReservationView>, k: int, q: nat)
        requires
            keys_unique(rs),
            0 <= k < rs.len(),
        ensures
            keys_unique(with_quantity(rs, k, q)),
    {
        let u = with_quantity(rs, k, q);
        assert forall|i: int, j: int|
            0 <= i < u.len() && 0 <= j < u.len() && i != j implies !is_key(
            #[trigger] u[i],
            u[j].item,
            #[trigger] u[j].owner,
        ) by {
            assert(!is_key(rs[i], rs[j].item, rs[j].owner));
        }
    }

    /// Makes sure that `quantity` of `item` is reserved for `owner`: creates the
    /// reservation if needed, and raises it if needed and possible.
    pub fn reserv_item(&mut self, item: &String, quantity: u32, owner: &String) -> (res: Result<
        (),
        BankReservationError,
    >)
        requires
            old(self)@.wf(),
        ensures
            (final(self)@, res) == old(self)@.after_reserv(item@, quantity as nat, owner@),
            final(self)@.wf(),
    {
        match self.find_reservation(item, owner) {
            Some(i) => {
                proof {
                    self.lemma_key_index(item@, owner@, i as int);
                }
                let to_reserv = quantity.saturating_sub(self.reservations[i].quantity);
                if to_reserv == 0 {
                    return Ok(());
                }
                self.inc_reservation(item, to_reserv, owner)
            },
            None => self.add_reservation(item, quantity, owner),
        }
    }

    /// Reserves each of `items` for `owner` in turn; stops at the first refusal.
    pub fn reserv_items(&mut self, items: &[SimpleItemSchema], owner: &String) -> (res: Result<
        (),
        BankReservationError,
    >)
        requires
            old(self)@.wf(),
        ensures
            (final(self)@, res) == old(self)@.after_reserv_all(items_view(items@), owner@),
            final(self)@.wf(),
    {
        let ghost all = items_view(items@);
        let ghost start = self@;
        let mut i: usize = 0;
        assert(all.skip(0) =~= all);
        while i < items.len()
            invariant
                i <= items.len(),
                all == items_view(items@),
                self@.wf(),
                start == old(self)@,
                start.after_reserv_all(all, owner@) == self@.after_reserv_all(
                    all.skip(i as int),
                    owner@,
                ),
            decreases items.len() - i,
        {
            assert(all.skip(i as int)[0] == all[i as int]);
            assert(all.skip(i as int).drop_first() =~= all.skip(i + 1));
            let ghost pre = self@;
            let r = self.reserv_item(&items[i].code, items[i].quantity, owner);
            if r.is_err() {
                assert(pre.after_reserv_all(all.skip(i as int), owner@) == (self@, r));
                return r;
            }
            i = i + 1;
        }
        Ok(())
    }

    /// Takes `quantity` off the reservation of `item` for `owner`; removes the
    /// reservation when nothing is left of it.
    pub fn dec_reservation(&mut self, item: &String, quantity: u32, owner: &String)
        requires
            old(self)@.wf(),
        ensures
            final(self)@ == old(self)@.after_dec(item@, quantity as nat, owner@),
            final(self)@.wf(),
    {
        match self.find_reservation(item, owner) {
            Some(i) => {
                proof {
                    self.lemma_key_index(item@, owner@, i as int);
                }
                let ghost before = self@;
                let ghost rs = before.reservations;
                let left = self.reservations[i].quantity.saturating_sub(quantity);
                if left < 1 {
                    self.reservations.remove(i);
                    proof {
                        assert(self@.reservations =~= rs.remove(i as int));
                        lemma_sums_remove(rs, i as int);
                        assert forall|a: int, b: int|
                            0 <= a < rs.remove(i as int).len() && 0 <= b < rs.remove(
                                i as int,
                            ).len() && a != b implies !is_key(
                            #[trigger] rs.remove(i as int)[a],
                            rs.remove(i as int)[b].item,
                            #[trigger] rs.remove(i as int)[b].owner,
                        ) by {
                            let a2 = if a < i { a } else { a + 1 };
                            let b2 = if b < i { b } else { b + 1 };
                            assert(rs.remove(i as int)[a] == rs[a2]);
                            assert(rs.remove(i as int)[b] == rs[b2]);
                            assert(!is_key(rs[a2], rs[b2].item, rs[b2].owner));
                        }
                        assert forall|it: Seq<char>| #[trigger]
                            reserved_of(rs.remove(i as int), it) <= u32::MAX by {
                            assert(reserved_of(rs, it) <= u32::MAX);
                        }
                    }
                } else {
                    let r = BankReservation { item: item.clone(), quantity: left, owner: owner.clone() };
                    self.reservations.set(i, r);
                    proof {
                        assert(self@.reservations =~= with_quantity(rs, i as int, left as nat));
                        lemma_sums_update(rs, i as int, left as nat);
                        self.lemma_unique_after_update(rs, i as int, left as nat);
                        assert forall|it: Seq<char>| #[trigger]
                            reserved_of(with_quantity(rs, i as int, left as nat), it) <= u32::MAX by {
                            assert(reserved_of(rs, it) <= u32::MAX);
                        }
                    }
                }
            },
            None => {},
        }
    }

    /// Takes each of `items` off the reservations of `owner` in turn.
    pub fn dec_reservations(&mut self, items: &[SimpleItemSchema], owner: &String)
        requires
            old(self)@.wf(),
        ensures
            final(self)@ == old(self)@.after_dec_all(items_view(items@), owner@),
            final(self)@.wf(),
    {
        let ghost all = items_view(items@);
        let ghost start = self@;
        let mut i: usize = 0;
        assert(all.skip(0) =~= all);
        while i < items.len()
            invariant
                i <= items.len(),
                all == items_view(items@),
                self@.wf(),
                start.after_dec_all(all, owner@) == self@.after_dec_all(all.skip(i as int), owner@),
            decreases items.len() - i,
        {
            assert(all.skip(i as int)[0] == all[i as int]);
            assert(all.skip(i as int).drop_first() =~= all.skip(i + 1));
            self.dec_reservation(&items[i].code, items[i].quantity, owner);
            i = i + 1;
        }
        assert(all.skip(i as int) =~= Seq::<ItemQuantity>::empty());
    }

    /// Returns, for each of `items`, the quantity that `owner` is missing in the bank,
    /// leaving out those that are not missing.
    pub fn missing_among(&self, items: &[SimpleItemSchema], owner: &String) -> (res: Vec<
        SimpleItemSchema,
    >)
        requires
            self@.wf(),
        ensures
            items_view(res@) == missing_among_spec(self@, items_view(items@), owner@),
    {
        let ghost all = items_view(items@);
        let mut res: Vec<SimpleItemSchema> = Vec::new();
        let mut i: usize = 0;
        while i < items.len()
            invariant
                i <= items.len(),
                all == items_view(items@),
                self@.wf(),
                items_view(res@) == missing_among_spec(self@, all.take(i as int), owner@),
            decreases items.len() - i,
        {
            assert(all.take(i + 1).drop_last() =~= all.take(i as int));
            let missing = items[i].quantity.saturating_sub(self.has_available(&items[i].code, owner));
            if missing > 0 {
                res.push(SimpleItemSchema { code: items[i].code.clone(), quantity: missing });
            }
            assert(items_view(res@) =~= missing_among_spec(self@, all.take(i + 1), owner@));
            i = i + 1;
        }
        assert(all.take(i as int) =~= all);
        res
    }

    /// Whether `owner` has each of `items` available in the bank.
    pub fn has_multiple_available(&self, items: &[SimpleItemSchema], owner: &String) -> (res: bool)
        requires
            self@.wf(),
        ensures
            res == (forall|i: int|
                0 <= i < items@.len() ==> self@.available(#[trigger] items@[i]@.code, owner@)
                    >= items@[i]@.quantity),
    {
        let mut i: usize = 0;
        while i < items.len()
            invariant
                i <= items.len(),
                self@.wf(),
                forall|j: int|
                    0 <= j < i ==> self@.available(#[trigger] items@[j]@.code, owner@)
                        >= items@[j]@.quantity,
            decreases items.len() - i,
        {
            if self.has_available(&items[i].code, owner) < items[i].quantity {
                assert(self@.available(items@[i as int]@.code, owner@) < items@[i as int]@.quantity);
                return false;
            }
            i = i + 1;
        }
        true
    }

    /// Returns how many times the materials `mats` available to `owner` in the bank
    /// can be spent, 0 when `mats` is empty.
    pub fn has_mats_for(&self, mats: &[SimpleItemSchema], owner: &String) -> (res: u32)
        requires
            self@.wf(),
            forall|i: int| 0 <= i < mats@.len() ==> (#[trigger] mats@[i]).quantity > 0,
        ensures
            res == crafts_allowed(self@, items_view(mats@), owner@),
    {
        let ghost all = items_view(mats@);
        let mut best: u32 = 0;
        let mut i: usize = 0;
        while i < mats.len()
            invariant
                i <= mats.len(),
                all == items_view(mats@),
                self@.wf(),
                forall|j: int| 0 <= j < mats@.len() ==> (#[trigger] mats@[j]).quantity > 0,
                best == crafts_allowed(self@, all.take(i as int), owner@),
            decreases mats.len() - i,
        {
            assert(all.take(i + 1).drop_last() =~= all.take(i as int));
            assert(all.take(i + 1).last() == all[i as int]);
            let here = self.has_available(&mats[i].code, owner) / mats[i].quantity;
            if i == 0 || here < best {
                best = here;
            }
            i = i + 1;
        }
        assert(all.take(i as int) =~= all);
        best
    }
}

proof fn lemma_prefix_sum_le(rs: Seq<ReservationView>, n: int, item: Seq<char>)
    requires
        0 <= n <= rs.len(),
    ensures
        reserved_of(rs.take(n), item) <= reserved_of(rs, item),
    decreases rs.len() - n,
{
    if n < rs.len() {
        lemma_prefix_sum_le(rs, n + 1, item);
        assert(rs.take(n + 1).drop_last() =~= rs.take(n));
    } else {
        assert(rs.take(n) =~= rs);
    }
}

proof fn lemma_total_in_bound(content: Seq<SimpleItemSchema>, item: Seq<char>)
    ensures
        total_in(items_view(content), item) <= u32::MAX,
    decreases content.len(),
{
    if content.len() > 0 {
        assert(items_view(content).drop_first() =~= items_view(content.drop_first()));
        lemma_total_in_bound(content.drop_first(), item);
    }
}

proof fn lemma_key_index_of(rs: Seq<ReservationView>, i: int, item: Seq<char>, owner: Seq<char>)
    requires
        keys_unique(rs),
        0 <= i < rs.len(),
        is_key(rs[i], item, owner),
    ensures
        has_key(rs, item, owner),
        key_index(rs, item, owner) == i,
        reserved_for(rs, item, owner) == rs[i].quantity,
{
    assert(is_key(rs[i], item, owner));
    let k = key_index(rs, item, owner);
    assert(is_key(rs[k], item, owner));
    lemma_key_quantity(rs, i);
}

/// Reserving for a character never changes what that character may withdraw:
/// only the reservations of other characters stand in its way.
pub proof fn law_reserving_keeps_own_availability(
    bank: BankView,
    item: Seq<char>,
    quantity: nat,
    owner: Seq<char>,
)
    requires
        bank.wf(),
    ensures
        bank.after_reserv(item, quantity, owner).0.available(item, owner) == bank.available(
            item,
            owner,
        ),
        bank.after_inc(item, quantity, owner).0.available(item, owner) == bank.available(
            item,
            owner,
        ),
{
    let rs = bank.reservations;
    lemma_sums_push(rs, ReservationView { item: item, owner: owner, quantity: quantity });
    if has_key(rs, item, owner) {
        let i = key_index(rs, item, owner);
        lemma_key_quantity(rs, i);
        lemma_sums_update(rs, i, rs[i].quantity + quantity);
        let missing = saturating_sub(quantity, bank.reserved_for(item, owner));
        lemma_sums_update(rs, i, rs[i].quantity + missing);
    } else {
        lemma_no_key_zero(rs, item, owner);
    }
}

/// A reservation that succeeds never makes the reserved quantity of an item exceed
/// what the bank holds, if it did not already.
pub proof fn law_reservation_within_content(
    bank: BankView,
    item: Seq<char>,
    quantity: nat,
    owner: Seq<char>,
)
    requires
        bank.wf(),
        bank.reserved(item) <= bank.total_of(item),
    ensures
        bank.after_inc(item, quantity, owner).1 is Ok ==> bank.after_inc(
            item,
            quantity,
            owner,
        ).0.reserved(item) <= bank.after_inc(item, quantity, owner).0.total_of(item),
        bank.after_reserv(item, quantity, owner).1 is Ok ==> bank.after_reserv(
            item,
            quantity,
            owner,
        ).0.reserved(item) <= bank.after_reserv(item, quantity, owner).0.total_of(item),
{
    let rs = bank.reservations;
    lemma_sums_push(rs, ReservationView { item: item, owner: owner, quantity: quantity });
    lemma_reserved_for_le(rs, item, owner);
    if has_key(rs, item, owner) {
        let i = key_index(rs, item, owner);
        lemma_key_quantity(rs, i);
        lemma_sums_update(rs, i, rs[i].quantity + quantity);
        let missing = saturating_sub(quantity, bank.reserved_for(item, owner));
        lemma_sums_update(rs, i, rs[i].quantity + missing);
    } else {
        lemma_no_key_zero(rs, item, owner);
    }
}

/// Taking back what was just added to a reservation restores the bank as it was,
/// unless the reservation was there and held nothing.
pub proof fn law_dec_undoes_inc(bank: BankView, item: Seq<char>, quantity: nat, owner: Seq<char>)
    requires
        bank.wf(),
        quantity > 0,
        bank.has_reservation(item, owner) ==> bank.reserved_for(item, owner) > 0,
        bank.after_inc(item, quantity, owner).1 is Ok,
    ensures
        bank.after_inc(item, quantity, owner).0.after_dec(item, quantity, owner) == bank,
{
    let rs = bank.reservations;
    let next = bank.after_inc(item, quantity, owner).0;
    if has_key(rs, item, owner) {
        let i = key_index(rs, item, owner);
        lemma_key_quantity(rs, i);
        let u = with_quantity(rs, i, rs[i].quantity + quantity);
        assert(is_key(u[i], item, owner));
        assert(keys_unique(u)) by {
            assert forall|a: int, b: int|
                0 <= a < u.len() && 0 <= b < u.len() && a != b implies !is_key(
                #[trigger] u[a],
                u[b].item,
                #[trigger] u[b].owner,
            ) by {
                assert(!is_key(rs[a], rs[b].item, rs[b].owner));
            }
        }
        lemma_key_index_of(u, i, item, owner);
        assert(with_quantity(u, i, rs[i].quantity) =~= rs);
    } else {
        let r = ReservationView { item: item, owner: owner, quantity: quantity };
        let u = rs.push(r);
        let n = rs.len() as int;
        assert(u[n] == r);
        assert(keys_unique(u)) by {
            assert forall|a: int, b: int|
                0 <= a < u.len() && 0 <= b < u.len() && a != b implies !is_key(
                #[trigger] u[a],
                u[b].item,
                #[trigger] u[b].owner,
            ) by {
                if a == n {
                    assert(u[b] == rs[b]);
                    assert(!is_key(rs[b], item, owner));
                } else if b == n {
                    assert(u[a] == rs[a]);
                    assert(!is_key(rs[a], item, owner));
                } else {
                    assert(!is_key(rs[a], rs[b].item, rs[b].owner));
                }
            }
        }
        lemma_key_index_of(u, n, item, owner);
        assert(u.remove(n) =~= rs);
    }
    assert(next.after_dec(item, quantity, owner) =~= bank);
}

} // verus!

verus! {

impl crate::Reservation for BankReservation {
    open spec fn reserved_quantity(&self) -> nat {
        self@.quantity
    }

    open spec fn reserved_item(&self) -> Seq<char> {
        self@.item
    }

    open spec fn reserved_owner(&self) -> Option<Seq<char>> {
        Some(self@.owner)
    }

    fn quantity(&self) -> (res: u32) {
        self.quantity
    }

    fn inc_quantity(&mut self, n: u32)
        ensures
            final(self)@.item == old(self)@.item,
            final(self)@.owner == old(self)@.owner,
    {
        self.quantity = self.quantity.wrapping_add(n);
    }

    fn dec_quantity(&mut self, n: u32)
        ensures
            final(self)@.item == old(self)@.item,
            final(self)@.owner == old(self)@.owner,
    {
        self.quantity = self.quantity.saturating_sub(n);
    }
}

} // verus!
