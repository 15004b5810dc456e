use crate::schema::{ItemQuantity, SimpleItemSchema};
use vstd::prelude::*;

verus! {

/// A slot of a character's equipment.
#[derive(Debug, Clone, Copy, PartialEq, Eq, Structural)]
pub enum Slot {
    Weapon,
    Shield,
    Helmet,
    BodyArmor,
    LegArmor,
    Boots,
    Ring1,
    Ring2,
    Amulet,
    Artifact1,
    Artifact2,
    Artifact3,
    Consumable1,
    Consumable2,
}

impl Default for Slot {
    fn default() -> (res: Self)
        ensures
            res == Slot::Weapon,
    {
        Slot::Weapon
    }
}

/// The code in a slot of a gear, as a value of the specification.
pub open spec fn opt_code(c: Option<String>) -> Option<Seq<char>> {
    match c {
        Some(s) => Some(s@),
        None => None,
    }
}

/// One item of `code`, if there is a code.
pub open spec fn single_entry(code: Option<Seq<char>>) -> Seq<ItemQuantity> {
    match code {
        Some(c) => seq![ItemQuantity { code: c, quantity: 1 }],
        None => Seq::empty(),
    }
}

/// The items that a gear with rings `r1` and `r2` amounts to: each ring slot once,
/// then the rings again with a ring worn twice counted as 2.
pub open spec fn gear_items_spec(r1: Option<Seq<char>>, r2: Option<Seq<char>>) -> Seq<ItemQuantity> {
    single_entry(r1) + single_entry(r2) + match (r1, r2) {
        (Some(a), Some(b)) => if a == b {
            seq![ItemQuantity { code: a, quantity: 2 }]
        } else {
            seq![ItemQuantity { code: a, quantity: 1 }, ItemQuantity { code: b, quantity: 1 }]
        },
        (Some(a), None) => seq![ItemQuantity { code: a, quantity: 1 }],
        (None, Some(b)) => seq![ItemQuantity { code: b, quantity: 1 }],
        (None, None) => Seq::empty(),
    }
}

/// The items a character wears, by the code of each, slot by slot.
#[derive(Debug)]
pub struct Gear {
    pub weapon: Option<String>,
    pub shield: Option<String>,
    pub helmet: Option<String>,
    pub body_armor: Option<String>,
    pub leg_armor: Option<String>,
    pub boots: Option<String>,
    pub ring1: Option<String>,
    pub ring2: Option<String>,
    pub amulet: Option<String>,
    pub artifact1: Option<String>,
    pub artifact2: Option<String>,
    pub artifact3: Option<String>,
    pub consumable1: Option<String>,
    pub consumable2: Option<String>,
}

impl Gear {
    /// The item in `slot`.
    pub fn slot(&self, slot: Slot) -> (res: &Option<String>)
        ensures
            *res == match slot {
                Slot::Weapon => self.weapon,
                Slot::Shield => self.shield,
                Slot::Helmet => self.helmet,
                Slot::BodyArmor => self.body_armor,
                Slot::LegArmor => self.leg_armor,
                Slot::Boots => self.boots,
                Slot::Ring1 => self.ring1,
                Slot::Ring2 => self.ring2,
                Slot::Amulet => self.amulet,
                Slot::Artifact1 => self.artifact1,
                Slot::Artifact2 => self.artifact2,
                Slot::Artifact3 => self.artifact3,
                Slot::Consumable1 => self.consumable1,
                Slot::Consumable2 => self.consumable2,
            },
    {
        match slot {
            Slot::Weapon => &self.weapon,
            Slot::Shield => &self.shield,
            Slot::Helmet => &self.helmet,
            Slot::BodyArmor => &self.body_armor,
            Slot::LegArmor => &self.leg_armor,
            Slot::Boots => &self.boots,
            Slot::Ring1 => &self.ring1,
            Slot::Ring2 => &self.ring2,
            Slot::Amulet => &self.amulet,
            Slot::Artifact1 => &self.artifact1,
            Slot::Artifact2 => &self.artifact2,
            Slot::Artifact3 => &self.artifact3,
            Slot::Consumable1 => &self.consumable1,
            Slot::Consumable2 => &self.consumable2,
        }
    }

    /// The list of items this gear amounts to: each ring slot as one item, then the
    /// rings again, with a ring worn in both slots counted as 2.
    pub fn to_items(&self) -> (res: Vec<SimpleItemSchema>)
        ensures
            res@.map_values(|i: SimpleItemSchema| i@) == gear_items_spec(
                opt_code(self.ring1),
                opt_code(self.ring2),
            ),
    {
        let mut items: Vec<SimpleItemSchema> = Vec::new();
        if let Some(r) = &self.ring1 {
            items.push(SimpleItemSchema::new(r.clone(), 1));
        }
        if let Some(r) = &self.ring2 {
            items.push(SimpleItemSchema::new(r.clone(), 1));
        }
        match (&self.ring1, &self.ring2) {
            (Some(r1), Some(r2)) => {
                if *r1 == *r2 {
                    items.push(SimpleItemSchema::new(r1.clone(), 2));
                } else {
                    items.push(SimpleItemSchema::new(r1.clone(), 1));
                    items.push(SimpleItemSchema::new(r2.clone(), 1));
                }
            },
            (Some(r), None) => {
                items.push(SimpleItemSchema::new(r.clone(), 1));
            },
            (None, Some(r)) => {
                items.push(SimpleItemSchema::new(r.clone(), 1));
            },
            (None, None) => {},
        }
        proof {
            let v = items@.map_values(|i: SimpleItemSchema| i@);
            assert(v =~= gear_items_spec(opt_code(self.ring1), opt_code(self.ring2)));
        }
        items
    }
}

/// Calls `String::push_str`, which appends `t` to the end of `s`.
#[verifier::external_body]
fn push_str(s: &mut String, t: &str)
    ensures
        final(s)@ == old(s)@ + t@,
{
    s.push_str(t);
}

/// An optional code as the text of its debug form: `None`, or `Some` and the code in
/// quotes.
pub open spec fn debug_code(c: Option<Seq<char>>) -> Seq<char> {
    match c {
        Some(x) => "Some(\""@ + x + "\")"@,
        None => "None"@,
    }
}

/// A line of the text of a gear: the slot's label, a colon and what the slot holds.
pub open spec fn gear_line(label: Seq<char>, c: Option<Seq<char>>) -> Seq<char> {
    label + ": "@ + debug_code(c) + "\n"@
}

/// Appends to `s` the line of slot `label` holding `c`.
fn push_line(s: &mut String, label: &str, c: &Option<String>)
    ensures
        final(s)@ == old(s)@ + gear_line(label@, opt_code(*c)),
{
    let ghost start = s@;
    push_str(s, label);
    push_str(s, ": ");
    match c {
        Some(x) => {
            push_str(s, "Some(\"");
            push_str(s, x.as_str());
            push_str(s, "\")");
        },
        None => {
            push_str(s, "None");
        },
    }
    push_str(s, "\n");
    assert(s@ =~= start + gear_line(label@, opt_code(*c)));
}

impl Gear {
    /// The gear as text: a line for each slot, its label, a colon and the debug form
    /// of the code it holds.
    pub fn describe(&self) -> (res: String)
        ensures
            res@ == gear_line("Weapon"@, opt_code(self.weapon)) + gear_line("Shield"@, opt_code(self.shield))
                + gear_line("Helmet"@, opt_code(self.helmet)) + gear_line("Body Armor"@, opt_code(self.body_armor))
                + gear_line("Leg Armor"@, opt_code(self.leg_armor)) + gear_line("Boots"@, opt_code(self.boots))
                + gear_line("Ring 1"@, opt_code(self.ring1)) + gear_line("Ring 2"@, opt_code(self.ring2))
                + gear_line("Amulet"@, opt_code(self.amulet)) + gear_line("Artifact 1"@, opt_code(self.artifact1))
                + gear_line("Artifact 2"@, opt_code(self.artifact2)) + gear_line("Artifact 3"@, opt_code(self.artifact3))
                + gear_line("Consumable 1"@, opt_code(self.consumable1)) + gear_line(
                "Consumable 2"@,
                opt_code(self.consumable2),
            ),
    {
        let mut s = String::new();
        push_line(&mut s, "Weapon", &self.weapon);
        assert(s@ =~= gear_line("Weapon"@, opt_code(self.weapon)));
        push_line(&mut s, "Shield", &self.shield);
        push_line(&mut s, "Helmet", &self.helmet);
        push_line(&mut s, "Body Armor", &self.body_armor);
        push_line(&mut s, "Leg Armor", &self.leg_armor);
        push_line(&mut s, "Boots", &self.boots);
        push_line(&mut s, "Ring 1", &self.ring1);
        push_line(&mut s, "Ring 2", &self.ring2);
        push_line(&mut s, "Amulet", &self.amulet);
        push_line(&mut s, "Artifact 1", &self.artifact1);
        push_line(&mut s, "Artifact 2", &self.artifact2);
        push_line(&mut s, "Artifact 3", &self.artifact3);
        push_line(&mut s, "Consumable 1", &self.consumable1);
        push_line(&mut s, "Consumable 2", &self.consumable2);
        s
    }
}

} // verus!
