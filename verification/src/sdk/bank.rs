use vstd::prelude::*;

verus! {

/// Why the bank refused a reservation.
#[derive(Debug, PartialEq, Eq, Structural)]
pub enum BankError {
    ItemUnavailable,
    QuantityUnavailable(i32),
}

/// A quantity of an item held in the bank for one character.
#[derive(Debug)]
pub struct Reservation {
    owner: String,
    item: String,
    quantity: i32,
}

impl Reservation {
    pub fn new(owner: String, item: String, quantity: i32) -> (res: Self)
        ensures
            res.owner_view() == owner@,
            res.item_view() == item@,
            res.quantity_view() == quantity,
    {
        Reservation { owner, item, quantity }
    }

    pub closed spec fn owner_view(&self) -> Seq<char> {
        self.owner@
    }

    pub closed spec fn item_view(&self) -> Seq<char> {
        self.item@
    }

    pub closed spec fn quantity_view(&self) -> i32 {
        self.quantity
    }

    /// Adds `i` to the reserved quantity.
    pub fn inc_quantity(&mut self, i: i32)
        requires
            i32::MIN <= old(self).quantity_view() + i <= i32::MAX,
        ensures
            final(self).quantity_view() == old(self).quantity_view() + i,
            final(self).owner_view() == old(self).owner_view(),
            final(self).item_view() == old(self).item_view(),
    {
        self.quantity = self.quantity + i;
    }

    /// Takes `i` off the reserved quantity.
    pub fn dec_quantity(&mut self, i: i32)
        requires
            i32::MIN <= old(self).quantity_view() - i <= i32::MAX,
        ensures
            final(self).quantity_view() == old(self).quantity_view() - i,
            final(self).owner_view() == old(self).owner_view(),
            final(self).item_view() == old(self).item_view(),
    {
        self.quantity = self.quantity - i;
    }

    pub fn quantity(&self) -> (res: i32)
        ensures
            res == self.quantity_view(),
    {
        self.quantity
    }
}

} // verus!
