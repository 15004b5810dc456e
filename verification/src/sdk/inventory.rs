use vstd::prelude::*;

verus! {

/// A quantity of an item set aside in a character's inventory.
#[derive(Debug)]
pub struct InventoryReservation {
    item: String,
    quantity: i32,
}

impl InventoryReservation {
    pub fn new(item: String, quantity: i32) -> (res: Self)
        ensures
            res.item_view() == item@,
            res.quantity_view() == quantity,
    {
        InventoryReservation { item, quantity }
    }

    pub closed spec fn item_view(&self) -> Seq<char> {
        self.item@
    }

    pub closed spec fn quantity_view(&self) -> i32 {
        self.quantity
    }

    /// Adds `i` to the reserved quantity.
    pub fn inc_quantity(&mut self, i: i32)
        requires
            i32::MIN <= old(self).quantity_view() + i <= i32::MAX,
        ensures
            final(self).quantity_view() == old(self).quantity_view() + i,
            final(self).item_view() == old(self).item_view(),
    {
        self.quantity = self.quantity + i;
    }

    /// Takes `i` off the reserved quantity.
    pub fn dec_quantity(&mut self, i: i32)
        requires
            i32::MIN <= old(self).quantity_view() - i <= i32::MAX,
        ensures
            final(self).quantity_view() == old(self).quantity_view() - i,
            final(self).item_view() == old(self).item_view(),
    {
        self.quantity = self.quantity - i;
    }

    pub fn quantity(&self) -> (res: i32)
        ensures
            res == self.quantity_view(),
    {
        self.quantity
    }
}

} // verus!
