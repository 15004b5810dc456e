use crate::bank::saturating_sub;
use crate::schema::{items_view, total_in, ItemQuantity, SimpleItemSchema};
use vstd::prelude::*;

verus! {

/// A slot of a character's inventory; an empty slot has an empty code.
#[derive(Debug)]
pub struct InventorySlot {
    pub slot: u32,
    pub code: String,
    pub quantity: u32,
}

/// The code and quantity held in each of `slots`.
pub open spec fn slots_view(slots: Seq<InventorySlot>) -> Seq<ItemQuantity> {
    slots.map_values(|s: InventorySlot| ItemQuantity { code: s.code@, quantity: s.quantity as nat })
}

/// The non-empty slots of `slots`, as item quantities, in order.
pub open spec fn simple_content_spec(slots: Seq<ItemQuantity>) -> Seq<ItemQuantity>
    decreases slots.len(),
{
    if slots.len() == 0 {
        Seq::empty()
    } else {
        let prev = simple_content_spec(slots.drop_last());
        if slots.last().code.len() == 0 {
            prev
        } else {
            prev.push(slots.last())
        }
    }
}

/// A quantity of an item of the inventory held back for a later use.
#[derive(Debug)]
pub struct InventoryReservation {
    item: String,
    quantity: u32,
}

/// What an inventory reservation stands for.
pub struct InvReservationView {
    pub item: Seq<char>,
    pub quantity: nat,
}

impl View for InventoryReservation {
    type V = InvReservationView;

    closed spec fn view(&self) -> InvReservationView {
        InvReservationView { item: self.item@, quantity: self.quantity as nat }
    }
}

impl InventoryReservation {
    pub fn new(item: String, quantity: u32) -> (res: Self)
        ensures
            res@.item == item@,
            res@.quantity == quantity,
    {
        InventoryReservation { item, quantity }
    }

    pub fn item(&self) -> (res: &String)
        ensures
            res@ == self@.item,
    {
        &self.item
    }

    pub fn quantity(&self) -> (res: u32)
        ensures
            res == self@.quantity,
    {
        self.quantity
    }

    /// Adds `n` to the quantity, wrapping around past `u32::MAX`.
    pub fn inc_quantity(&mut self, n: u32)
        ensures
            final(self)@.item == old(self)@.item,
            final(self)@.quantity == (old(self)@.quantity + n) % 0x1_0000_0000,
    {
        self.quantity = self.quantity.wrapping_add(n);
    }

    /// Takes `n` off the quantity, down to 0.
    pub fn dec_quantity(&mut self, n: u32)
        ensures
            final(self)@.item == old(self)@.item,
            final(self)@.quantity == saturating_sub(old(self)@.quantity, n as nat),
    {
        self.quantity = self.quantity.saturating_sub(n);
    }

    /// A copy of this reservation.
    pub fn duplicate(&self) -> (res: Self)
        ensures
            res@ == self@,
    {
        InventoryReservation { item: self.item.clone(), quantity: self.quantity }
    }
}

/// The error of a reservation that the inventory cannot back.
#[derive(Debug, PartialEq, Eq, Structural)]
pub enum InventoryReservationError {
    QuantityUnavailable(u32),
}

/// What a character's inventory holds and what is reserved in it.
pub struct InventoryView {
    pub content: Seq<ItemQuantity>,
    pub reservations: Seq<InvReservationView>,
}

/// The quantity of `item` reserved.
pub open spec fn inv_reserved_of(rs: Seq<InvReservationView>, item: Seq<char>) -> nat
    decreases rs.len(),
{
    if rs.len() == 0 {
        0
    } else {
        inv_reserved_of(rs.drop_last(), item) + if rs.last().item == item {
            rs.last().quantity
        } else {
            0
        }
    }
}

pub open spec fn inv_has_key(rs: Seq<InvReservationView>, item: Seq<char>) -> bool {
    exists|i: int| 0 <= i < rs.len() && (#[trigger] rs[i]).item == item
}

pub open spec fn inv_key_index(rs: Seq<InvReservationView>, item: Seq<char>) -> int {
    choose|i: int| 0 <= i < rs.len() && (#[trigger] rs[i]).item == item
}

pub open spec fn inv_keys_unique(rs: Seq<InvReservationView>) -> bool {
    forall|i: int, j: int|
        0 <= i < rs.len() && 0 <= j < rs.len() && i != j ==> (#[trigger] rs[i]).item
            != (#[trigger] rs[j]).item
}

pub open spec fn inv_with_quantity(rs: Seq<InvReservationView>, i: int, q: nat) -> Seq<
    InvReservationView,
> {
    rs.update(i, InvReservationView { quantity: q, ..rs[i] })
}

impl InventoryView {
    pub open spec fn total_of(self, item: Seq<char>) -> nat {
        total_in(self.content, item)
    }

    pub open spec fn reserved(self, item: Seq<char>) -> nat {
        inv_reserved_of(self.reservations, item)
    }

    /// The quantity of `item` held and not reserved.
    pub open spec fn available(self, item: Seq<char>) -> nat {
        saturating_sub(self.total_of(item), self.reserved(item))
    }

    pub open spec fn has_reservation(self, item: Seq<char>) -> bool {
        inv_has_key(self.reservations, item)
    }

    pub open spec fn with_reservations(self, rs: Seq<InvReservationView>) -> InventoryView {
        InventoryView { content: self.content, reservations: rs }
    }

    pub open spec fn after_add(self, item: Seq<char>, quantity: nat) -> (
        InventoryView,
        Result<(), InventoryReservationError>,
    ) {
        if quantity > self.available(item) {
            (self, Err(InventoryReservationError::QuantityUnavailable(quantity as u32)))
        } else {
            (
                self.with_reservations(
                    self.reservations.push(InvReservationView { item: item, quantity: quantity }),
                ),
                Ok(()),
            )
        }
    }

    pub open spec fn after_inc(self, item: Seq<char>, quantity: nat) -> (
        InventoryView,
        Result<(), InventoryReservationError>,
    ) {
        if self.has_reservation(item) {
            if quantity > self.available(item) {
                (self, Err(InventoryReservationError::QuantityUnavailable(quantity as u32)))
            } else {
                let i = inv_key_index(self.reservations, item);
                (
                    self.with_reservations(
                        inv_with_quantity(
                            self.reservations,
                            i,
                            self.reservations[i].quantity + quantity,
                        ),
                    ),
                    Ok(()),
                )
            }
        } else {
            self.after_add(item, quantity)
        }
    }

    pub open spec fn after_reserv(self, item: Seq<char>, quantity: nat) -> (
        InventoryView,
        Result<(), InventoryReservationError>,
    ) {
        if self.has_reservation(item) {
            let missing = saturating_sub(quantity, self.reserved(item));
            if missing == 0 {
                (self, Ok(()))
            } else {
                self.after_inc(item, missing)
            }
        } else {
            self.after_add(item, quantity)
        }
    }

    pub open spec fn after_dec(self, item: Seq<char>, quantity: nat) -> InventoryView {
        if self.has_reservation(item) {
            let i = inv_key_index(self.reservations, item);
            let left = saturating_sub(self.reservations[i].quantity, quantity);
            if left < 1 {
                self.with_reservations(self.reservations.remove(i))
            } else {
                self.with_reservations(inv_with_quantity(self.reservations, i, left))
            }
        } else {
            self
        }
    }

    pub open spec fn after_reserv_all(self, items: Seq<ItemQuantity>) -> (
        InventoryView,
        Result<(), InventoryReservationError>,
    )
        decreases items.len(),
    {
        if items.len() == 0 {
            (self, Ok(()))
        } else {
            let (next, res) = self.after_reserv(items[0].code, items[0].quantity);
            match res {
                Ok(()) => next.after_reserv_all(items.drop_first()),
                Err(e) => (next, Err(e)),
            }
        }
    }

    pub open spec fn after_dec_all(self, items: Seq<ItemQuantity>) -> InventoryView
        decreases items.len(),
    {
        if items.len() == 0 {
            self
        } else {
            self.after_dec(items[0].code, items[0].quantity).after_dec_all(items.drop_first())
        }
    }

    /// Removing the reservation equal to `r`, if there is one.
    pub open spec fn after_remove(self, r: InvReservationView) -> InventoryView {
        if exists|i: int| 0 <= i < self.reservations.len() && #[trigger] self.reservations[i] == r {
            let i = choose|i: int|
                0 <= i < self.reservations.len() && #[trigger] self.reservations[i] == r;
            self.with_reservations(self.reservations.remove(i))
        } else {
            self
        }
    }

    /// No two reservations share an item and the reserved quantity of each item
    /// fits in a `u32`.
    pub open spec fn wf(self) -> bool {
        &&& inv_keys_unique(self.reservations)
        &&& forall|item: Seq<char>| #[trigger] inv_reserved_of(self.reservations, item) <= u32::MAX
    }
}

/// The quantities of `items` missing from the inventory.
pub open spec fn inv_missing_among_spec(inv: InventoryView, items: Seq<ItemQuantity>) -> Seq<
    ItemQuantity,
>
    decreases items.len(),
{
    if items.len() == 0 {
        Seq::empty()
    } else {
        let prev = inv_missing_among_spec(inv, items.drop_last());
        let m = items.last();
        let missing = saturating_sub(m.quantity, inv.available(m.code));
        if missing > 0 {
            prev.push(ItemQuantity { code: m.code, quantity: missing })
        } else {
            prev
        }
    }
}

proof fn lemma_inv_sums_push(rs: Seq<InvReservationView>, r: InvReservationView)
    ensures
        forall|item: Seq<char>|
            #[trigger] inv_reserved_of(rs.push(r), item) == inv_reserved_of(rs, item) + if r.item
                == item {
                r.quantity
            } else {
                0
            },
{
    assert(rs.push(r).drop_last() =~= rs);
}

proof fn lemma_inv_no_key_zero(rs: Seq<InvReservationView>, item: Seq<char>)
    requires
        !inv_has_key(rs, item),
    ensures
        inv_reserved_of(rs, item) == 0,
    decreases rs.len(),
{
    if rs.len() > 0 {
        assert(rs[rs.len() - 1].item != item);
        assert forall|i: int| 0 <= i < rs.drop_last().len() implies (
        #[trigger] rs.drop_last()[i]).item != item by {
            assert(rs.drop_last()[i] == rs[i]);
        }
        lemma_inv_no_key_zero(rs.drop_last(), item);
    }
}

proof fn lemma_inv_key_quantity(rs: Seq<InvReservationView>, k: int)
    requires
        inv_keys_unique(rs),
        0 <= k < rs.len(),
    ensures
        inv_reserved_of(rs, rs[k].item) == rs[k].quantity,
    decreases rs.len(),
{
    let item = rs[k].item;
    let d = rs.drop_last();
    assert forall|i: int, j: int| 0 <= i < d.len() && 0 <= j < d.len() && i != j implies (
    #[trigger] d[i]).item != (#[trigger] d[j]).item by {
        assert(d[i] == rs[i] && d[j] == rs[j]);
    }
    if k == rs.len() - 1 {
        assert forall|i: int| 0 <= i < d.len() implies (#[trigger] d[i]).item != item by {
            assert(d[i] == rs[i]);
        }
        lemma_inv_no_key_zero(d, item);
    } else {
        assert(d[k] == rs[k]);
        lemma_inv_key_quantity(d, k);
    }
}

proof fn lemma_inv_key_index_of(rs: Seq<InvReservationView>, i: int, item: Seq<char>)
    requires
        inv_keys_unique(rs),
        0 <= i < rs.len(),
        rs[i].item == item,
    ensures
        inv_has_key(rs, item),
        inv_key_index(rs, item) == i,
        inv_reserved_of(rs, item) == rs[i].quantity,
{
    assert(rs[i].item == item);
    let k = inv_key_index(rs, item);
    assert(rs[k].item == item);
    lemma_inv_key_quantity(rs, i);
}

proof fn lemma_inv_sums_update(rs: Seq<InvReservationView>, k: int, q: nat)
    requires
        0 <= k < rs.len(),
    ensures
        forall|item: Seq<char>|
            #[trigger] inv_reserved_of(inv_with_quantity(rs, k, q), item) == inv_reserved_of(
                rs,
                item,
            ) - (if rs[k].item == item {
                rs[k].quantity
            } else {
                0
            }) + (if rs[k].item == item {
                q
            } else {
                0
            }),
    decreases rs.len(),
{
    let u = inv_with_quantity(rs, k, q);
    if k == rs.len() - 1 {
        assert(u.drop_last() =~= rs.drop_last());
    } else {
        lemma_inv_sums_update(rs.drop_last(), k, q);
        assert(u.drop_last() =~= inv_with_quantity(rs.drop_last(), k, q));
    }
    assert forall|item: Seq<char>|
        #[trigger] inv_reserved_of(u, item) == inv_reserved_of(rs, item) - (if rs[k].item == item {
            rs[k].quantity
        } else {
            0
        }) + (if rs[k].item == item {
            q
        } else {
            0
        }) by {
        if k != rs.len() - 1 {
            assert(inv_reserved_of(u.drop_last(), item) == inv_reserved_of(
                inv_with_quantity(rs.drop_last(), k, q),
                item,
            ));
        }
    }
}

proof fn lemma_inv_sums_remove(rs: Seq<InvReservationView>, k: int)
    requires
        0 <= k < rs.len(),
    ensures
        forall|item: Seq<char>|
            #[trigger] inv_reserved_of(rs.remove(k), item) == inv_reserved_of(rs, item) - (if rs[k].item
                == item {
                rs[k].quantity
            } else {
                0
            }),
    decreases rs.len(),
{
    let u = rs.remove(k);
    if k == rs.len() - 1 {
        assert(u =~= rs.drop_last());
    } else {
        lemma_inv_sums_remove(rs.drop_last(), k);
        assert(u.drop_last() =~= rs.drop_last().remove(k));
        assert(u.last() == rs.last());
        assert forall|item: Seq<char>|
            #[trigger] inv_reserved_of(u, item) == inv_reserved_of(rs, item) - (if rs[k].item
                == item {
                rs[k].quantity
            } else {
                0
            }) by {
            assert(inv_reserved_of(u.drop_last(), item) == inv_reserved_of(
                rs.drop_last().remove(k),
                item,
            ));
        }
    }
}

proof fn lemma_inv_unique_update(rs: Seq<InvReservationView>, k: int, q: nat)
    requires
        inv_keys_unique(rs),
        0 <= k < rs.len(),
    ensures
        inv_keys_unique(inv_with_quantity(rs, k, q)),
{
    let u = inv_with_quantity(rs, k, q);
    assert forall|i: int, j: int| 0 <= i < u.len() && 0 <= j < u.len() && i != j implies (
    #[trigger] u[i]).item != (#[trigger] u[j]).item by {
        assert(rs[i].item != rs[j].item);
    }
}

proof fn lemma_inv_unique_remove(rs: Seq<InvReservationView>, k: int)
    requires
        inv_keys_unique(rs),
        0 <= k < rs.len(),
    ensures
        inv_keys_unique(rs.remove(k)),
{
    let u = rs.remove(k);
    assert forall|a: int, b: int| 0 <= a < u.len() && 0 <= b < u.len() && a != b implies (
    #[trigger] u[a]).item != (#[trigger] u[b]).item by {
        let a2 = if a < k {
            a
        } else {
            a + 1
        };
        let b2 = if b < k {
            b
        } else {
            b + 1
        };
        assert(u[a] == rs[a2]);
        assert(u[b] == rs[b2]);
    }
}

proof fn lemma_inv_prefix_sum_le(rs: Seq<InvReservationView>, n: int, item: Seq<char>)
    requires
        0 <= n <= rs.len(),
    ensures
        inv_reserved_of(rs.take(n), item) <= inv_reserved_of(rs, item),
    decreases rs.len() - n,
{
    if n < rs.len() {
        lemma_inv_prefix_sum_le(rs, n + 1, item);
        assert(rs.take(n + 1).drop_last() =~= rs.take(n));
    } else {
        assert(rs.take(n) =~= rs);
    }
}

proof fn lemma_slots_total_bound(slots: Seq<InventorySlot>, item: Seq<char>)
    ensures
        total_in(slots_view(slots), item) <= u32::MAX,
    decreases slots.len(),
{
    if slots.len() > 0 {
        assert(slots_view(slots).drop_first() =~= slots_view(slots.drop_first()));
        lemma_slots_total_bound(slots.drop_first(), item);
    }
}

/// A character's inventory: its slots, as the game last reported them, and the
/// quantities of items held back from it.
pub struct InventoryController {
    content: Vec<InventorySlot>,
    reservations: Vec<InventoryReservation>,
}

impl View for InventoryController {
    type V = InventoryView;

    closed spec fn view(&self) -> InventoryView {
        InventoryView {
            content: slots_view(self.content@),
            reservations: self.reservations@.map_values(|r: InventoryReservation| r@),
        }
    }
}

impl InventoryController {
    /// An inventory holding `content` and no reservation.
    pub fn new(content: Vec<InventorySlot>) -> (res: Self)
        ensures
            res@.content == slots_view(content@),
            res@.reservations == Seq::<InvReservationView>::empty(),
            res@.wf(),
    {
        let res = InventoryController { content, reservations: Vec::new() };
        assert(res@.reservations =~= Seq::<InvReservationView>::empty());
        res
    }

    /// Records what the inventory now holds; reservations are kept.
    pub fn update_content(&mut self, content: Vec<InventorySlot>)
        ensures
            final(self)@.content == slots_view(content@),
            final(self)@.reservations == old(self)@.reservations,
    {
        self.content = content;
    }

    /// Copies of the reservations held on the inventory.
    pub fn reservations(&self) -> (res: Vec<InventoryReservation>)
        ensures
            res@.map_values(|r: InventoryReservation| r@) == self@.reservations,
    {
        let mut res: Vec<InventoryReservation> = Vec::new();
        let mut i: usize = 0;
        while i < self.reservations.len()
            invariant
                i <= self.reservations.len(),
                res@.len() == i,
                forall|j: int| 0 <= j < i ==> #[trigger] res@[j]@ == self.reservations@[j]@,
            decreases self.reservations.len() - i,
        {
            res.push(self.reservations[i].duplicate());
            i = i + 1;
        }
        assert(res@.map_values(|r: InventoryReservation| r@) =~= self@.reservations);
        res
    }

    /// The non-empty slots of the inventory, as item quantities.
    pub fn simple_content(&self) -> (res: Vec<SimpleItemSchema>)
        ensures
            items_view(res@) == simple_content_spec(self@.content),
    {
        let ghost slots = self@.content;
        let mut res: Vec<SimpleItemSchema> = Vec::new();
        let mut i: usize = 0;
        while i < self.content.len()
            invariant
                i <= self.content.len(),
                slots == self@.content,
                items_view(res@) == simple_content_spec(slots.take(i as int)),
            decreases self.content.len() - i,
        {
            assert(slots.take(i + 1).drop_last() =~= slots.take(i as int));
            if self.content[i].code.as_str().unicode_len() != 0 {
                res.push(
                    SimpleItemSchema {
                        code: self.content[i].code.clone(),
                        quantity: self.content[i].quantity,
                    },
                );
            }
            assert(items_view(res@) =~= simple_content_spec(slots.take(i + 1)));
            i = i + 1;
        }
        assert(slots.take(i as int) =~= slots);
        res
    }

    /// Returns the quantity of `item` in the first slot that holds it, or 0.
    pub fn total_of(&self, item: &String) -> (res: u32)
        ensures
            res == self@.total_of(item@),
    {
        let ghost view = self@.content;
        let mut i: usize = 0;
        assert(view.skip(0) =~= view);
        while i < self.content.len()
            invariant
                i <= self.content.len(),
                view == self@.content,
                total_in(view, item@) == total_in(view.skip(i as int), item@),
            decreases self.content.len() - i,
        {
            assert(view.skip(i as int)[0] == view[i as int]);
            if self.content[i].code == *item {
                return self.content[i].quantity;
            }
            assert(view.skip(i as int).drop_first() =~= view.skip(i + 1));
            i = i + 1;
        }
        0
    }

    /// Returns the quantity of `item` reserved.
    pub fn quantity_reserved(&self, item: &String) -> (res: u32)
        requires
            self@.wf(),
        ensures
            res == self@.reserved(item@),
    {
        let ghost rs = self@.reservations;
        let mut sum: u32 = 0;
        let mut i: usize = 0;
        while i < self.reservations.len()
            invariant
                i <= self.reservations.len(),
                rs == self@.reservations,
                self@.wf(),
                sum == inv_reserved_of(rs.take(i as int), item@),
            decreases self.reservations.len() - i,
        {
            assert(rs.take(i + 1).drop_last() =~= rs.take(i as int));
            proof {
                lemma_inv_prefix_sum_le(rs, i + 1, item@);
            }
            if self.reservations[i].item == *item {
                sum = sum + self.reservations[i].quantity;
            }
            i = i + 1;
        }
        assert(rs.take(i as int) =~= rs);
        sum
    }

    /// Returns the quantity of `item` held and not reserved.
    pub fn has_available(&self, item: &String) -> (res: u32)
        requires
            self@.wf(),
        ensures
            res == self@.available(item@),
    {
        self.total_of(item).saturating_sub(self.quantity_reserved(item))
    }

    /// Returns the quantity of `item` held and not reserved.
    pub fn quantity_reservable(&self, item: &String) -> (res: u32)
        requires
            self@.wf(),
        ensures
            res == self@.available(item@),
    {
        self.has_available(item)
    }

    /// Whether some of `item` is reserved.
    pub fn is_reserved(&self, item: &String) -> (res: bool)
        requires
            self@.wf(),
        ensures
            res == (self@.reserved(item@) > 0),
    {
        self.quantity_reserved(item) > 0
    }

    fn find_reservation(&self, item: &String) -> (res: Option<usize>)
        ensures
            match res {
                Some(i) => i < self@.reservations.len() && self@.reservations[i as int].item == item@,
                None => !self@.has_reservation(item@),
            },
    {
        let mut i: usize = 0;
        while i < self.reservations.len()
            invariant
                i <= self.reservations.len(),
                forall|j: int| 0 <= j < i ==> (#[trigger] self@.reservations[j]).item != item@,
            decreases self.reservations.len() - i,
        {
            if self.reservations[i].item == *item {
                return Some(i);
            }
            i = i + 1;
        }
        None
    }

    /// Returns a copy of the reservation of `item`, if there is one.
    pub fn get_reservation(&self, item: &String) -> (res: Option<InventoryReservation>)
        requires
            self@.wf(),
        ensures
            match res {
                Some(r) => self@.has_reservation(item@) && r@ == self@.reservations[inv_key_index(
                    self@.reservations,
                    item@,
                )],
                None => !self@.has_reservation(item@),
            },
    {
        match self.find_reservation(item) {
            Some(i) => {
                proof {
                    lemma_inv_key_index_of(self@.reservations, i as int, item@);
                }
                Some(self.reservations[i].duplicate())
            },
            None => None,
        }
    }

    fn add_reservation(&mut self, item: &String, quantity: u32) -> (res: Result<
        (),
        InventoryReservationError,
    >)
        requires
            old(self)@.wf(),
            !old(self)@.has_reservation(item@),
        ensures
            (final(self)@, res) == old(self)@.after_add(item@, quantity as nat),
            final(self)@.wf(),
    {
        if quantity > self.quantity_reservable(item) {
            return Err(InventoryReservationError::QuantityUnavailable(quantity));
        }
        let ghost before = self@;
        let r = InventoryReservation { item: item.clone(), quantity };
        proof {
            let rv = r@;
            let rs = before.reservations;
            lemma_inv_sums_push(rs, rv);
            lemma_inv_no_key_zero(rs, item@);
            lemma_slots_total_bound(self.content@, item@);
            assert forall|it: Seq<char>| #[trigger] inv_reserved_of(rs.push(rv), it) <= u32::MAX by {
                assert(inv_reserved_of(rs, it) <= u32::MAX);
            }
        }
        self.reservations.push(r);
        assert(self@.reservations =~= before.reservations.push(
            InvReservationView { item: item@, quantity: quantity as nat },
        ));
        Ok(())
    }

    /// Adds `quantity` to the reservation of `item`, or creates it; refused when more
    /// than is held and not reserved is asked.
    pub fn inc_reservation(&mut self, item: &String, quantity: u32) -> (res: Result<
        (),
        InventoryReservationError,
    >)
        requires
            old(self)@.wf(),
        ensures
            (final(self)@, res) == old(self)@.after_inc(item@, quantity as nat),
            final(self)@.wf(),
    {
        match self.find_reservation(item) {
            Some(i) => {
                proof {
                    lemma_inv_key_index_of(self@.reservations, i as int, item@);
                }
                if quantity > self.quantity_reservable(item) {
                    return Err(InventoryReservationError::QuantityUnavailable(quantity));
                }
                let ghost rs = self@.reservations;
                proof {
                    lemma_slots_total_bound(self.content@, item@);
                }
                let old_q = self.reservations[i].quantity;
                let r = InventoryReservation { item: item.clone(), quantity: old_q + quantity };
                self.reservations.set(i, r);
                proof {
                    let q = (old_q + quantity) as nat;
                    assert(self@.reservations =~= inv_with_quantity(rs, i as int, q));
                    lemma_inv_sums_update(rs, i as int, q);
                    lemma_inv_unique_update(rs, i as int, q);
                    assert forall|it: Seq<char>| #[trigger]
                        inv_reserved_of(inv_with_quantity(rs, i as int, q), it) <= u32::MAX by {
                        assert(inv_reserved_of(rs, it) <= u32::MAX);
                    }
                }
                Ok(())
            },
            None => self.add_reservation(item, quantity),
        }
    }

    /// Makes sure that `quantity` of `item` is reserved.
    pub fn reserv_item(&mut self, item: &String, quantity: u32) -> (res: Result<
        (),
        InventoryReservationError,
    >)
        requires
            old(self)@.wf(),
        ensures
            (final(self)@, res) == old(self)@.after_reserv(item@, quantity as nat),
            final(self)@.wf(),
    {
        match self.find_reservation(item) {
            Some(i) => {
                proof {
                    lemma_inv_key_index_of(self@.reservations, i as int, item@);
                }
                let to_reserv = quantity.saturating_sub(self.reservations[i].quantity);
                if to_reserv == 0 {
                    return Ok(());
                }
                self.inc_reservation(item, to_reserv)
            },
            None => self.add_reservation(item, quantity),
        }
    }

    /// Reserves each of `items` in turn; stops at the first refusal.
    pub fn reserv_items(&mut self, items: &[SimpleItemSchema]) -> (res: Result<
        (),
        InventoryReservationError,
    >)
        requires
            old(self)@.wf(),
        ensures
            (final(self)@, res) == old(self)@.after_reserv_all(items_view(items@)),
            final(self)@.wf(),
    {
        let ghost all = items_view(items@);
        let ghost start = self@;
        let mut i: usize = 0;
        assert(all.skip(0) =~= all);
        while i < items.len()
            invariant
                i <= items.len(),
                all == items_view(items@),
                self@.wf(),
                start == old(self)@,
                start.after_reserv_all(all) == self@.after_reserv_all(all.skip(i as int)),
            decreases items.len() - i,
        {
            assert(all.skip(i as int)[0] == all[i as int]);
            assert(all.skip(i as int).drop_first() =~= all.skip(i + 1));
            let ghost pre = self@;
            let r = self.reserv_item(&items[i].code, items[i].quantity);
            if r.is_err() {
                assert(pre.after_reserv_all(all.skip(i as int)) == (self@, r));
                return r;
            }
            i = i + 1;
        }
        Ok(())
    }

    /// Takes `quantity` off the reservation of `item`; removes it when nothing is left.
    pub fn decrease_reservation(&mut self, item: &String, quantity: u32)
        requires
            old(self)@.wf(),
        ensures
            final(self)@ == old(self)@.after_dec(item@, quantity as nat),
            final(self)@.wf(),
    {
        match self.find_reservation(item) {
            Some(i) => {
                proof {
                    lemma_inv_key_index_of(self@.reservations, i as int, item@);
                }
                let ghost rs = self@.reservations;
                let left = self.reservations[i].quantity.saturating_sub(quantity);
                if left < 1 {
                    self.reservations.remove(i);
                    proof {
                        assert(self@.reservations =~= rs.remove(i as int));
                        lemma_inv_sums_remove(rs, i as int);
                        lemma_inv_unique_remove(rs, i as int);
                        assert forall|it: Seq<char>| #[trigger]
                            inv_reserved_of(rs.remove(i as int), it) <= u32::MAX by {
                            assert(inv_reserved_of(rs, it) <= u32::MAX);
                        }
                    }
                } else {
                    let r = InventoryReservation { item: item.clone(), quantity: left };
                    self.reservations.set(i, r);
                    proof {
                        assert(self@.reservations =~= inv_with_quantity(rs, i as int, left as nat));
                        lemma_inv_sums_update(rs, i as int, left as nat);
                        lemma_inv_unique_update(rs, i as int, left as nat);
                        assert forall|it: Seq<char>| #[trigger]
                            inv_reserved_of(inv_with_quantity(rs, i as int, left as nat), it)
                                <= u32::MAX by {
                            assert(inv_reserved_of(rs, it) <= u32::MAX);
                        }
                    }
                }
            },
            None => {},
        }
    }

    /// Takes each of `items` off the reservations in turn.
    pub fn decrease_reservations(&mut self, items: &[SimpleItemSchema])
        requires
            old(self)@.wf(),
        ensures
            final(self)@ == old(self)@.after_dec_all(items_view(items@)),
            final(self)@.wf(),
    {
        let ghost all = items_view(items@);
        let ghost start = self@;
        let mut i: usize = 0;
        assert(all.skip(0) =~= all);
        while i < items.len()
            invariant
                i <= items.len(),
                all == items_view(items@),
                self@.wf(),
                start.after_dec_all(all) == self@.after_dec_all(all.skip(i as int)),
            decreases items.len() - i,
        {
            assert(all.skip(i as int)[0] == all[i as int]);
            assert(all.skip(i as int).drop_first() =~= all.skip(i + 1));
            self.decrease_reservation(&items[i].code, items[i].quantity);
            i = i + 1;
        }
        assert(all.skip(i as int) =~= Seq::<ItemQuantity>::empty());
    }

    /// Removes the reservation equal to `reservation` (same item and quantity), if any.
    pub fn remove_reservation(&mut self, reservation: &InventoryReservation)
        requires
            old(self)@.wf(),
        ensures
            final(self)@ == old(self)@.after_remove(reservation@),
            final(self)@.wf(),
    {
        let ghost rs = self@.reservations;
        match self.find_reservation(&reservation.item) {
            Some(i) => {
                if self.reservations[i].quantity == reservation.quantity {
                    self.reservations.remove(i);
                    proof {
                        assert(rs[i as int] == reservation@);
                        let k = choose|k: int| 0 <= k < rs.len() && #[trigger] rs[k] == reservation@;
                        assert(rs[k].item == rs[i as int].item);
                        assert(self@.reservations =~= rs.remove(i as int));
                        lemma_inv_sums_remove(rs, i as int);
                        lemma_inv_unique_remove(rs, i as int);
                        assert forall|it: Seq<char>| #[trigger]
                            inv_reserved_of(rs.remove(i as int), it) <= u32::MAX by {
                            assert(inv_reserved_of(rs, it) <= u32::MAX);
                        }
                    }
                } else {
                    assert forall|k: int| 0 <= k < rs.len() implies #[trigger] rs[k]
                        != reservation@ by {
                        if rs[k] == reservation@ {
                            assert(rs[k].item == rs[i as int].item);
                        }
                    }
                }
            },
            None => {
                assert forall|k: int| 0 <= k < rs.len() implies #[trigger] rs[k] != reservation@ by {
                    if rs[k] == reservation@ {
                        assert(rs[k].item == reservation@.item);
                    }
                }
            },
        }
    }

    /// Returns, for each of `items`, the quantity missing from the inventory, leaving
    /// out those that are not missing.
    pub fn missing_among(&self, items: &[SimpleItemSchema]) -> (res: Vec<SimpleItemSchema>)
        requires
            self@.wf(),
        ensures
            items_view(res@) == inv_missing_among_spec(self@, items_view(items@)),
    {
        let ghost all = items_view(items@);
        let mut res: Vec<SimpleItemSchema> = Vec::new();
        let mut i: usize = 0;
        while i < items.len()
            invariant
                i <= items.len(),
                all == items_view(items@),
                self@.wf(),
                items_view(res@) == inv_missing_among_spec(self@, all.take(i as int)),
            decreases items.len() - i,
        {
            assert(all.take(i + 1).drop_last() =~= all.take(i as int));
            let missing = items[i].quantity.saturating_sub(self.has_available(&items[i].code));
            if missing > 0 {
                res.push(SimpleItemSchema { code: items[i].code.clone(), quantity: missing });
            }
            assert(items_view(res@) =~= inv_missing_among_spec(self@, all.take(i + 1)));
            i = i + 1;
        }
        assert(all.take(i as int) =~= all);
        res
    }
}

/// Taking back what was just added to a reservation restores the inventory as it
/// was, unless the reservation was there and held nothing.
pub proof fn law_inventory_dec_undoes_inc(inv: InventoryView, item: Seq<char>, quantity: nat)
    requires
        inv.wf(),
        quantity > 0,
        inv.has_reservation(item) ==> inv.reserved(item) > 0,
        inv.after_inc(item, quantity).1 is Ok,
    ensures
        inv.after_inc(item, quantity).0.after_dec(item, quantity) == inv,
{
    let rs = inv.reservations;
    let next = inv.after_inc(item, quantity).0;
    if inv_has_key(rs, item) {
        let i = inv_key_index(rs, item);
        lemma_inv_key_quantity(rs, i);
        let u = inv_with_quantity(rs, i, rs[i].quantity + quantity);
        lemma_inv_unique_update(rs, i, rs[i].quantity + quantity);
        lemma_inv_key_index_of(u, i, item);
        assert(inv_with_quantity(u, i, rs[i].quantity) =~= rs);
    } else {
        let r = InvReservationView { item: item, quantity: quantity };
        let u = rs.push(r);
        let n = rs.len() as int;
        assert(u[n] == r);
        assert(inv_keys_unique(u)) by {
            assert forall|a: int, b: int| 0 <= a < u.len() && 0 <= b < u.len() && a != b implies (
            #[trigger] u[a]).item != (#[trigger] u[b]).item by {
                if a == n {
                    assert(u[b] == rs[b]);
                } else if b == n {
                    assert(u[a] == rs[a]);
                } else {
                    assert(rs[a].item != rs[b].item);
                }
            }
        }
        lemma_inv_key_index_of(u, n, item);
        assert(u.remove(n) =~= rs);
    }
    assert(next.after_dec(item, quantity) =~= inv);
}

/// A reservation that succeeds never reserves more of an item than the inventory
/// holds, if it did not already.
pub proof fn law_inventory_reservation_within_content(inv: InventoryView, item: Seq<char>, quantity: nat)
    requires
        inv.wf(),
        inv.reserved(item) <= inv.total_of(item),
    ensures
        inv.after_inc(item, quantity).1 is Ok ==> inv.after_inc(item, quantity).0.reserved(item)
            <= inv.after_inc(item, quantity).0.total_of(item),
        inv.after_reserv(item, quantity).1 is Ok ==> inv.after_reserv(item, quantity).0.reserved(
            item,
        ) <= inv.after_reserv(item, quantity).0.total_of(item),
{
    let rs = inv.reservations;
    lemma_inv_sums_push(rs, InvReservationView { item: item, quantity: quantity });
    if inv_has_key(rs, item) {
        let i = inv_key_index(rs, item);
        lemma_inv_key_quantity(rs, i);
        lemma_inv_sums_update(rs, i, rs[i].quantity + quantity);
        let missing = saturating_sub(quantity, inv.reserved(item));
        lemma_inv_sums_update(rs, i, rs[i].quantity + missing);
    } else {
        lemma_inv_no_key_zero(rs, item);
    }
}

impl crate::Reservation for InventoryReservation {
    open spec fn reserved_quantity(&self) -> nat {
        self@.quantity
    }

    open spec fn reserved_item(&self) -> Seq<char> {
        self@.item
    }

    open spec fn reserved_owner(&self) -> Option<Seq<char>> {
        None
    }

    fn quantity(&self) -> (res: u32) {
        self.quantity
    }

    fn inc_quantity(&mut self, n: u32)
        ensures
            final(self)@.item == old(self)@.item,
    {
        self.quantity = self.quantity.wrapping_add(n);
    }

    fn dec_quantity(&mut self, n: u32)
        ensures
            final(self)@.item == old(self)@.item,
    {
        self.quantity = self.quantity.saturating_sub(n);
    }
}

} // verus!
