use vstd::prelude::*;

verus! {

/// Which items the equipment finder considers.
#[derive(Debug, Clone, Copy, PartialEq, Eq, Structural)]
pub enum Filter {
    All,
    Available,
    Craftable,
    Farmable,
}

} // verus!
