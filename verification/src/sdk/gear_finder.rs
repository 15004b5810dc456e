use vstd::prelude::*;

verus! {

/// Which items the gear finder considers.
#[derive(Debug, Clone, Copy, PartialEq, Eq, Structural)]
pub struct Filter {
    pub available: bool,
    pub from_monster: bool,
    pub from_task: bool,
    pub can_craft: bool,
    pub from_gift: bool,
}

impl Default for Filter {
    /// Items from monsters and from tasks, whether available or craftable or not,
    /// gifts left out.
    fn default() -> (res: Self)
        ensures
            res == (Filter {
                available: false,
                can_craft: false,
                from_task: true,
                from_monster: true,
                from_gift: false,
            }),
    {
        Filter {
            available: false,
            can_craft: false,
            from_task: true,
            from_monster: true,
            from_gift: false,
        }
    }
}

} // verus!
