use vstd::prelude::*;

verus! {

/// An item code together with a quantity: a bank slot, a recipe material, a deposit.
#[derive(Debug)]
pub struct SimpleItemSchema {
    pub code: String,
    pub quantity: u32,
}

/// What a `SimpleItemSchema` stands for.
pub struct ItemQuantity {
    pub code: Seq<char>,
    pub quantity: nat,
}

impl View for SimpleItemSchema {
    type V = ItemQuantity;

    open spec fn view(&self) -> ItemQuantity {
        ItemQuantity { code: self.code@, quantity: self.quantity as nat }
    }
}

/// The view of each element of a list of item quantities.
pub open spec fn items_view(items: Seq<SimpleItemSchema>) -> Seq<ItemQuantity> {
    items.map_values(|i: SimpleItemSchema| i@)
}

impl SimpleItemSchema {
    pub fn new(code: String, quantity: u32) -> (res: Self)
        ensures
            res.code@ == code@,
            res.quantity == quantity,
    {
        SimpleItemSchema { code, quantity }
    }

    /// A copy of this item quantity.
    pub fn duplicate(&self) -> (res: Self)
        ensures
            res@ == self@,
    {
        SimpleItemSchema { code: self.code.clone(), quantity: self.quantity }
    }
}

/// The quantity held in the first slot of `content` that holds `item`, or 0 when none does.
pub open spec fn total_in(content: Seq<ItemQuantity>, item: Seq<char>) -> nat
    decreases content.len(),
{
    if content.len() == 0 {
        0
    } else if content[0].code == item {
        content[0].quantity
    } else {
        total_in(content.drop_first(), item)
    }
}

/// Returns the quantity held in the first slot of `content` whose code is `item`, or 0.
pub fn total_of(content: &Vec<SimpleItemSchema>, item: &String) -> (res: u32)
    ensures
        res == total_in(items_view(content@), item@),
{
    let ghost view = items_view(content@);
    let mut i: usize = 0;
    assert(view.skip(0) =~= view);
    while i < content.len()
        invariant
            i <= content.len(),
            view == items_view(content@),
            total_in(view, item@) == total_in(view.skip(i as int), item@),
        decreases content.len() - i,
    {
        assert(view.skip(i as int)[0] == view[i as int]);
        if content[i].code == *item {
            return content[i].quantity;
        }
        assert(view.skip(i as int).drop_first() =~= view.skip(i + 1));
        i = i + 1;
    }
    0
}

/// What a list of item quantities holds of an item fits in a `u32`.
pub proof fn lemma_total_in_fits(content: Seq<SimpleItemSchema>, item: Seq<char>)
    ensures
        total_in(items_view(content), item) <= u32::MAX,
    decreases content.len(),
{
    if content.len() > 0 {
        assert(items_view(content).drop_first() =~= items_view(content.drop_first()));
        lemma_total_in_fits(content.drop_first(), item);
    }
}

} // verus!
