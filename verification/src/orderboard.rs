use crate::bank::{saturating_sub, BankController, BankView};
use crate::schema::{items_view, ItemQuantity, SimpleItemSchema};
use crate::sdk::skill::Skill;
use vstd::prelude::*;

verus! {

/// What an order is for; orders are served by the rank of their purpose.
#[derive(Debug)]
pub enum Purpose {
    Food { char: String },
    Cli,
    Gear { char: String, item_code: String },
    Task { char: String },
    Leveling { char: String, skill: Skill },
}

pub enum PurposeView {
    Food { char: Seq<char> },
    Cli,
    Gear { char: Seq<char>, item_code: Seq<char> },
    Task { char: Seq<char> },
    Leveling { char: Seq<char>, skill: Skill },
}

impl View for Purpose {
    type V = PurposeView;

    open spec fn view(&self) -> PurposeView {
        match self {
            Purpose::Food { char } => PurposeView::Food { char: char@ },
            Purpose::Cli => PurposeView::Cli,
            Purpose::Gear { char, item_code } => PurposeView::Gear {
                char: char@,
                item_code: item_code@,
            },
            Purpose::Task { char } => PurposeView::Task { char: char@ },
            Purpose::Leveling { char, skill } => PurposeView::Leveling { char: char@, skill: *skill },
        }
    }
}

/// The rank of a purpose: food first, then the command line, gear, tasks and leveling.
pub open spec fn purpose_rank(p: PurposeView) -> nat {
    match p {
        PurposeView::Food { .. } => 0,
        PurposeView::Cli => 1,
        PurposeView::Gear { .. } => 2,
        PurposeView::Task { .. } => 3,
        PurposeView::Leveling { .. } => 4,
    }
}

impl Purpose {
    pub fn rank(&self) -> (res: u8)
        ensures
            res == purpose_rank(self@),
    {
        match self {
            Purpose::Food { .. } => 0,
            Purpose::Cli => 1,
            Purpose::Gear { .. } => 2,
            Purpose::Task { .. } => 3,
            Purpose::Leveling { .. } => 4,
        }
    }

    /// Equality of the variants and of their fields.
    pub fn same_as(&self, other: &Purpose) -> (res: bool)
        ensures
            res == (self@ == other@),
    {
        match (self, other) {
            (Purpose::Food { char: a }, Purpose::Food { char: b }) => *a == *b,
            (Purpose::Cli, Purpose::Cli) => true,
            (
                Purpose::Gear { char: a, item_code: x },
                Purpose::Gear { char: b, item_code: y },
            ) => *a == *b && *x == *y,
            (Purpose::Task { char: a }, Purpose::Task { char: b }) => *a == *b,
            (
                Purpose::Leveling { char: a, skill: s },
                Purpose::Leveling { char: b, skill: t },
            ) => *a == *b && *s == *t,
            _ => false,
        }
    }

    /// A copy of this purpose.
    pub fn duplicate(&self) -> (res: Purpose)
        ensures
            res@ == self@,
    {
        match self {
            Purpose::Food { char } => Purpose::Food { char: char.clone() },
            Purpose::Cli => Purpose::Cli,
            Purpose::Gear { char, item_code } => Purpose::Gear {
                char: char.clone(),
                item_code: item_code.clone(),
            },
            Purpose::Task { char } => Purpose::Task { char: char.clone() },
            Purpose::Leveling { char, skill } => Purpose::Leveling { char: char.clone(), skill: *skill },
        }
    }
}

/// The moment an order was created, as seconds and nanoseconds since the Unix epoch.
#[derive(Debug, Clone, Copy, PartialEq, Eq, Structural)]
pub struct CreationTime {
    pub secs: i64,
    pub nanos: u32,
}

/// Whether `a` comes strictly after `b`.
pub open spec fn later_than(a: CreationTime, b: CreationTime) -> bool {
    a.secs > b.secs || (a.secs == b.secs && a.nanos > b.nanos)
}

/// Reads the clock.
#[verifier::external_body]
fn now() -> (res: CreationTime) {
    let t = chrono::Utc::now();
    CreationTime { secs: t.timestamp(), nanos: t.timestamp_subsec_nanos() }
}

/// The errors of the order board.
#[derive(Debug, PartialEq, Eq, Structural)]
pub enum OrderError {
    InvalidQuantity,
    NotFound,
    AlreadyExists,
    UnknownItem,
}

/// A request for a quantity of an item to be brought to the bank.
#[derive(Debug)]
pub struct Order {
    pub item: String,
    quantity: u32,
    pub owner: Option<String>,
    pub purpose: Purpose,
    in_progress: u32,
    deposited: u32,
    pub creation: CreationTime,
}

pub struct OrderView {
    pub item: Seq<char>,
    pub quantity: nat,
    pub owner: Option<Seq<char>>,
    pub purpose: PurposeView,
    pub in_progress: nat,
    pub deposited: nat,
    pub creation: CreationTime,
}

pub open spec fn owner_view(o: Option<String>) -> Option<Seq<char>> {
    match o {
        Some(s) => Some(s@),
        None => None,
    }
}

impl View for Order {
    type V = OrderView;

    closed spec fn view(&self) -> OrderView {
        OrderView {
            item: self.item@,
            quantity: self.quantity as nat,
            owner: owner_view(self.owner),
            purpose: self.purpose@,
            in_progress: self.in_progress as nat,
            deposited: self.deposited as nat,
            creation: self.creation,
        }
    }
}

impl OrderView {
    pub open spec fn turned_in(self) -> bool {
        self.deposited >= self.quantity
    }

    pub open spec fn missing(self) -> nat {
        saturating_sub(self.quantity, self.deposited)
    }

    /// Orders for the same item, owner and purpose are similar.
    pub open spec fn similar(self, other: OrderView) -> bool {
        self.item == other.item && self.owner == other.owner && self.purpose == other.purpose
    }
}

fn owner_eq(a: &Option<String>, b: &Option<String>) -> (res: bool)
    ensures
        res == (owner_view(*a) == owner_view(*b)),
{
    match (a, b) {
        (Some(x), Some(y)) => *x == *y,
        (None, None) => true,
        _ => false,
    }
}

fn owner_clone(a: &Option<String>) -> (res: Option<String>)
    ensures
        owner_view(res) == owner_view(*a),
{
    match a {
        Some(x) => Some(x.clone()),
        None => None,
    }
}

impl Order {
    /// An order of `quantity` of `item`, created now; refused for a zero quantity.
    pub fn new(owner: Option<&String>, item: &String, quantity: u32, purpose: Purpose) -> (res: Result<
        Order,
        OrderError,
    >)
        ensures
            quantity == 0 <==> res is Err,
            res is Err ==> res == Err::<Order, OrderError>(OrderError::InvalidQuantity),
            res matches Ok(o) ==> {
                &&& o@.item == item@
                &&& o@.quantity == quantity
                &&& o@.owner == match owner {
                    Some(s) => Some(s@),
                    None => None::<Seq<char>>,
                }
                &&& o@.purpose == purpose@
                &&& o@.in_progress == 0
                &&& o@.deposited == 0
            },
    {
        if quantity == 0 {
            return Err(OrderError::InvalidQuantity);
        }
        let owner = match owner {
            Some(s) => Some(s.clone()),
            None => None,
        };
        Ok(
            Order {
                owner,
                item: item.clone(),
                quantity,
                purpose,
                in_progress: 0,
                deposited: 0,
                creation: now(),
            },
        )
    }

    fn is_similar(&self, other: &Order) -> (res: bool)
        ensures
            res == self@.similar(other@),
    {
        self.item == other.item && owner_eq(&self.owner, &other.owner) && self.purpose.same_as(
            &other.purpose,
        )
    }

    pub fn in_progress(&self) -> (res: u32)
        ensures
            res == self@.in_progress,
    {
        self.in_progress
    }

    /// Whether as much as was ordered has been deposited.
    pub fn turned_in(&self) -> (res: bool)
        ensures
            res == self@.turned_in(),
    {
        self.deposited >= self.quantity
    }

    pub fn deposited(&self) -> (res: u32)
        ensures
            res == self@.deposited,
    {
        self.deposited
    }

    pub fn quantity(&self) -> (res: u32)
        ensures
            res == self@.quantity,
    {
        self.quantity
    }

    /// The quantity ordered and not yet deposited.
    pub fn missing(&self) -> (res: u32)
        ensures
            res == self@.missing(),
    {
        self.quantity.saturating_sub(self.deposited)
    }

    /// Counts `n` more items deposited, wrapping around past `u32::MAX`.
    pub fn inc_deposited(&mut self, n: u32)
        ensures
            final(self)@ == (OrderView {
                deposited: ((old(self)@.deposited + n) % 0x1_0000_0000) as nat,
                ..old(self)@
            }),
    {
        self.deposited = self.deposited.wrapping_add(n);
    }

    /// Counts `n` more items being gathered, wrapping around past `u32::MAX`.
    pub fn inc_in_progress(&mut self, n: u32)
        ensures
            final(self)@ == (OrderView {
                in_progress: ((old(self)@.in_progress + n) % 0x1_0000_0000) as nat,
                ..old(self)@
            }),
    {
        self.in_progress = self.in_progress.wrapping_add(n);
    }

    /// Counts `n` fewer items being gathered, down to 0.
    pub fn dec_in_progress(&mut self, n: u32)
        ensures
            final(self)@ == (OrderView {
                in_progress: saturating_sub(old(self)@.in_progress, n as nat),
                ..old(self)@
            }),
    {
        self.in_progress = self.in_progress.saturating_sub(n);
    }

    /// Forgets what was deposited.
    pub fn reset(&mut self)
        ensures
            final(self)@ == (OrderView { deposited: 0, ..old(self)@ }),
    {
        self.deposited = 0;
    }

    /// A copy of this order.
    pub fn duplicate(&self) -> (res: Order)
        ensures
            res@ == self@,
    {
        Order {
            item: self.item.clone(),
            quantity: self.quantity,
            owner: owner_clone(&self.owner),
            purpose: self.purpose.duplicate(),
            in_progress: self.in_progress,
            deposited: self.deposited,
            creation: self.creation,
        }
    }
}

/// Whether the order at `a` is served before the one at `b`: by the rank of the
/// purpose, then the most recent first, then the most recently added first.
pub open spec fn served_before(orders: Seq<OrderView>, a: int, b: int) -> bool {
    let (x, y) = (orders[a], orders[b]);
    purpose_rank(x.purpose) < purpose_rank(y.purpose) || (purpose_rank(x.purpose) == purpose_rank(
        y.purpose,
    ) && (later_than(x.creation, y.creation) || (x.creation == y.creation && a > b)))
}

/// `p` lists each position of `orders` once, in the order in which they are served.
pub open spec fn is_priority_order(orders: Seq<OrderView>, p: Seq<int>) -> bool {
    &&& p.len() == orders.len()
    &&& forall|k: int| 0 <= k < p.len() ==> 0 <= #[trigger] p[k] < orders.len()
    &&& forall|x: int| 0 <= x < orders.len() ==> p.contains(x)
    &&& forall|k: int, l: int| 0 <= k < l < p.len() ==> served_before(orders, #[trigger] p[k], #[trigger] p[l])
}

/// The positions of `orders` in the order in which they are served.
pub open spec fn priority_order(orders: Seq<OrderView>) -> Seq<int> {
    choose|p: Seq<int>| is_priority_order(orders, p)
}

proof fn lemma_served_before_total(orders: Seq<OrderView>, a: int, b: int)
    requires
        a != b,
    ensures
        served_before(orders, a, b) || served_before(orders, b, a),
        !(served_before(orders, a, b) && served_before(orders, b, a)),
{
}

proof fn lemma_served_before_trans(orders: Seq<OrderView>, a: int, b: int, c: int)
    requires
        served_before(orders, a, b),
        served_before(orders, b, c),
    ensures
        served_before(orders, a, c),
{
}

/// There is only one way to list the orders in the order in which they are served.
proof fn lemma_priority_order_unique(orders: Seq<OrderView>, p: Seq<int>, q: Seq<int>)
    requires
        is_priority_order(orders, p),
        is_priority_order(orders, q),
    ensures
        p == q,
{
    lemma_sorted_lists_equal(orders, p, q);
}

/// Two lists of the same positions, each strictly ordered by `served_before`, are equal.
proof fn lemma_sorted_lists_equal(orders: Seq<OrderView>, p: Seq<int>, q: Seq<int>)
    requires
        p.len() == q.len(),
        forall|k: int, l: int| 0 <= k < l < p.len() ==> served_before(orders, #[trigger] p[k], #[trigger] p[l]),
        forall|k: int, l: int| 0 <= k < l < q.len() ==> served_before(orders, #[trigger] q[k], #[trigger] q[l]),
        forall|x: int| p.contains(x) <==> q.contains(x),
    ensures
        p =~= q,
    decreases p.len(),
{
    if p.len() > 0 {
        assert(p.contains(p[0]));
        assert(q.contains(q[0]));
        if p[0] != q[0] {
            let i = choose|i: int| 0 <= i < q.len() && q[i] == p[0];
            let j = choose|j: int| 0 <= j < p.len() && p[j] == q[0];
            assert(i != 0);
            assert(j != 0);
            assert(served_before(orders, q[0], q[i]));
            assert(served_before(orders, p[0], p[j]));
            lemma_served_before_total(orders, p[0], q[0]);
            assert(false);
        }
        let p1 = p.drop_first();
        let q1 = q.drop_first();
        assert forall|k: int, l: int| 0 <= k < l < p1.len() implies served_before(
            orders,
            #[trigger] p1[k],
            #[trigger] p1[l],
        ) by {
            assert(served_before(orders, p[k + 1], p[l + 1]));
        }
        assert forall|k: int, l: int| 0 <= k < l < q1.len() implies served_before(
            orders,
            #[trigger] q1[k],
            #[trigger] q1[l],
        ) by {
            assert(served_before(orders, q[k + 1], q[l + 1]));
        }
        assert forall|x: int| p1.contains(x) <==> q1.contains(x) by {
            if p1.contains(x) {
                let k = choose|k: int| 0 <= k < p1.len() && p1[k] == x;
                assert(p[k + 1] == x);
                assert(p.contains(x));
                let m = choose|m: int| 0 <= m < q.len() && q[m] == x;
                if m == 0 {
                    assert(served_before(orders, p[0], p[k + 1]));
                    lemma_served_before_total(orders, x, x);
                    assert(false);
                }
                assert(q1[m - 1] == x);
            }
            if q1.contains(x) {
                let k = choose|k: int| 0 <= k < q1.len() && q1[k] == x;
                assert(q[k + 1] == x);
                assert(q.contains(x));
                let m = choose|m: int| 0 <= m < p.len() && p[m] == x;
                if m == 0 {
                    assert(served_before(orders, q[0], q[k + 1]));
                    assert(false);
                }
                assert(p1[m - 1] == x);
            }
        }
        lemma_sorted_lists_equal(orders, p1, q1);
        assert(p =~= seq![p[0]] + p1);
        assert(q =~= seq![q[0]] + q1);
    }
}

/// The board's orders, each with a flag telling whether it was fully deposited,
/// after `remaining` of `code` has been dealt out along the positions `p`.
pub open spec fn deal_deposit(
    orders: Seq<OrderView>,
    bank: BankView,
    removed: Seq<bool>,
    p: Seq<int>,
    code: Seq<char>,
    remaining: nat,
) -> (Seq<OrderView>, BankView, Seq<bool>)
    decreases p.len(),
{
    if p.len() == 0 || remaining == 0 {
        (orders, bank, removed)
    } else {
        let i = p[0];
        let o = orders[i];
        if o.item == code {
            let x = if o.quantity < remaining {
                o.quantity
            } else {
                remaining
            };
            let o2 = OrderView { deposited: (o.deposited + x) % 0x1_0000_0000, ..o };
            let bank2 = match o.owner {
                Some(w) => bank.after_inc(code, x, w).0,
                None => bank,
            };
            let removed2 = if o2.turned_in() {
                removed.update(i, true)
            } else {
                removed
            };
            deal_deposit(
                orders.update(i, o2),
                bank2,
                removed2,
                p.drop_first(),
                code,
                (remaining - x) as nat,
            )
        } else {
            deal_deposit(orders, bank, removed, p.drop_first(), code, remaining)
        }
    }
}

/// The orders not flagged in `removed`, in order.
pub open spec fn kept(orders: Seq<OrderView>, removed: Seq<bool>) -> Seq<OrderView>
    decreases orders.len(),
{
    if orders.len() == 0 {
        Seq::empty()
    } else {
        let prev = kept(orders.drop_last(), removed);
        if removed[orders.len() - 1] {
            prev
        } else {
            prev.push(orders.last())
        }
    }
}

/// The board and the bank after `quantity` of `code` was deposited: it is dealt out
/// to the orders for `code` in the order in which they are served, each taking at
/// most the quantity it asks for; the part an owned order takes is reserved in the
/// bank for its owner, and the orders fully deposited leave the board.
pub open spec fn after_deposit(orders: Seq<OrderView>, bank: BankView, code: Seq<char>, quantity: nat) -> (
    Seq<OrderView>,
    BankView,
) {
    let dealt = deal_deposit(
        orders,
        bank,
        Seq::new(orders.len(), |i: int| false),
        priority_order(orders),
        code,
        quantity,
    );
    (kept(dealt.0, dealt.2), dealt.1)
}

/// The board and the bank after each of `items` was deposited in turn.
pub open spec fn after_deposits(orders: Seq<OrderView>, bank: BankView, items: Seq<ItemQuantity>) -> (
    Seq<OrderView>,
    BankView,
)
    decreases items.len(),
{
    if items.len() == 0 {
        (orders, bank)
    } else {
        let (o2, b2) = after_deposit(orders, bank, items[0].code, items[0].quantity);
        after_deposits(o2, b2, items.drop_first())
    }
}

/// No two orders on the board are similar.
pub open spec fn orders_distinct(orders: Seq<OrderView>) -> bool {
    forall|i: int, j: int|
        0 <= i < orders.len() && 0 <= j < orders.len() && i != j ==> !(#[trigger] orders[i]).similar(
            #[trigger] orders[j],
        )
}

/// The first order of `orders` that is for `item`, `owner` and `purpose`.
pub open spec fn find_order(
    orders: Seq<OrderView>,
    item: Seq<char>,
    owner: Option<Seq<char>>,
    purpose: PurposeView,
) -> Option<int> {
    if exists|i: int|
        0 <= i < orders.len() && (#[trigger] orders[i]).item == item && orders[i].owner == owner
            && orders[i].purpose == purpose {
        Some(
            choose|i: int|
                0 <= i < orders.len() && (#[trigger] orders[i]).item == item && orders[i].owner
                    == owner && orders[i].purpose == purpose,
        )
    } else {
        None
    }
}

pub struct OrderBoardView {
    pub orders: Seq<OrderView>,
    pub known_items: Seq<Seq<char>>,
}

/// The orders placed by the characters, and the codes of the items that exist.
pub struct OrderBoard {
    orders: Vec<Order>,
    known_items: Vec<String>,
}

impl View for OrderBoard {
    type V = OrderBoardView;

    closed spec fn view(&self) -> OrderBoardView {
        OrderBoardView {
            orders: self.orders@.map_values(|o: Order| o@),
            known_items: self.known_items@.map_values(|s: String| s@),
        }
    }
}

impl OrderBoardView {
    pub open spec fn wf(self) -> bool {
        orders_distinct(self.orders)
    }

    pub open spec fn knows(self, item: Seq<char>) -> bool {
        self.known_items.contains(item)
    }

    /// Whether some order is for `item`.
    pub open spec fn is_ordered(self, item: Seq<char>) -> bool {
        exists|i: int| 0 <= i < self.orders.len() && (#[trigger] self.orders[i]).item == item
    }

    /// The outcome of placing an order: refused for an unknown item, a zero quantity,
    /// or when a similar order exists.
    pub open spec fn add_outcome(
        self,
        item: Seq<char>,
        quantity: nat,
        owner: Option<Seq<char>>,
        purpose: PurposeView,
    ) -> Result<(), OrderError> {
        if !self.knows(item) {
            Err(OrderError::UnknownItem)
        } else if quantity < 1 {
            Err(OrderError::InvalidQuantity)
        } else if find_order(self.orders, item, owner, purpose) is Some {
            Err(OrderError::AlreadyExists)
        } else {
            Ok(())
        }
    }
}

/// `new` is `old` with one more order at the end, for `item`, `quantity`, `owner`
/// and `purpose`, with nothing deposited or in progress.
pub open spec fn pushed_order(
    old: Seq<OrderView>,
    new: Seq<OrderView>,
    item: Seq<char>,
    quantity: nat,
    owner: Option<Seq<char>>,
    purpose: PurposeView,
) -> bool {
    &&& new.len() == old.len() + 1
    &&& new.drop_last() == old
    &&& new.last().item == item
    &&& new.last().quantity == quantity
    &&& new.last().owner == owner
    &&& new.last().purpose == purpose
    &&& new.last().deposited == 0
    &&& new.last().in_progress == 0
}

/// The items of `items` that placing each in turn as an order of `owner` for
/// `purpose` on `board` accepts: known items of a positive quantity, for which no
/// similar order is on the board nor was accepted before.
pub open spec fn accepted_items(
    board: OrderBoardView,
    items: Seq<ItemQuantity>,
    owner: Option<Seq<char>>,
    purpose: PurposeView,
) -> Seq<ItemQuantity>
    decreases items.len(),
{
    if items.len() == 0 {
        Seq::empty()
    } else {
        let prev = accepted_items(board, items.drop_last(), owner, purpose);
        let m = items.last();
        if board.knows(m.code) && m.quantity >= 1 && find_order(board.orders, m.code, owner, purpose) is None
            && !prev.map_values(|q: ItemQuantity| q.code).contains(m.code) {
            prev.push(m)
        } else {
            prev
        }
    }
}

/// `new` is `old` followed by an order for each of `items`, in order, for `owner`
/// and `purpose`, with nothing deposited or in progress.
pub open spec fn pushed_orders(
    old: Seq<OrderView>,
    new: Seq<OrderView>,
    items: Seq<ItemQuantity>,
    owner: Option<Seq<char>>,
    purpose: PurposeView,
) -> bool {
    &&& new.len() == old.len() + items.len()
    &&& new.take(old.len() as int) == old
    &&& forall|k: int|
        0 <= k < items.len() ==> {
            let o = #[trigger] new[old.len() + k];
            &&& o.item == items[k].code
            &&& o.quantity == items[k].quantity
            &&& o.owner == owner
            &&& o.purpose == purpose
            &&& o.deposited == 0
            &&& o.in_progress == 0
        }
}

/// On `old` followed by orders for `items` of `owner` and `purpose`, an order for
/// `code`, `owner` and `purpose` is found exactly when one is on `old` or `code` is
/// one of `items`.
proof fn lemma_find_in_pushed(
    old: Seq<OrderView>,
    new: Seq<OrderView>,
    items: Seq<ItemQuantity>,
    owner: Option<Seq<char>>,
    purpose: PurposeView,
    code: Seq<char>,
)
    requires
        pushed_orders(old, new, items, owner, purpose),
    ensures
        (find_order(new, code, owner, purpose) is Some) <==> (find_order(old, code, owner, purpose) is Some
            || items.map_values(|q: ItemQuantity| q.code).contains(code)),
{
    let codes = items.map_values(|q: ItemQuantity| q.code);
    if find_order(old, code, owner, purpose) is Some {
        let i = choose|i: int|
            0 <= i < old.len() && (#[trigger] old[i]).item == code && old[i].owner == owner
                && old[i].purpose == purpose;
        assert(new.take(old.len() as int)[i] == new[i]);
        assert(new[i].item == code);
    }
    if codes.contains(code) {
        let k = choose|k: int| 0 <= k < codes.len() && codes[k] == code;
        assert(new[old.len() + k].item == code);
    }
    if find_order(new, code, owner, purpose) is Some {
        let i = choose|i: int|
            0 <= i < new.len() && (#[trigger] new[i]).item == code && new[i].owner == owner
                && new[i].purpose == purpose;
        if i < old.len() {
            assert(new.take(old.len() as int)[i] == new[i]);
            assert(old[i] == new[i]);
        } else {
            let k = i - old.len();
            assert(new[old.len() + k].item == items[k].code);
            assert(codes[k] == code);
        }
    }
}

impl OrderBoard {
    /// An empty board; `known_items` are the codes of the items that can be ordered.
    pub fn new(known_items: Vec<String>) -> (res: Self)
        ensures
            res@.orders == Seq::<OrderView>::empty(),
            res@.known_items == known_items@.map_values(|s: String| s@),
            res@.wf(),
    {
        let res = OrderBoard { orders: Vec::new(), known_items };
        assert(res@.orders =~= Seq::<OrderView>::empty());
        res
    }

    fn knows(&self, item: &String) -> (res: bool)
        ensures
            res == self@.knows(item@),
    {
        let mut i: usize = 0;
        while i < self.known_items.len()
            invariant
                i <= self.known_items.len(),
                forall|j: int| 0 <= j < i ==> self@.known_items[j] != item@,
            decreases self.known_items.len() - i,
        {
            if self.known_items[i] == *item {
                assert(self@.known_items[i as int] == item@);
                return true;
            }
            i = i + 1;
        }
        false
    }

    fn find(&self, item: &String, owner: &Option<String>, purpose: &Purpose) -> (res: Option<usize>)
        requires
            self@.wf(),
        ensures
            match res {
                Some(i) => find_order(self@.orders, item@, owner_view(*owner), purpose@) == Some(
                    i as int,
                ),
                None => find_order(self@.orders, item@, owner_view(*owner), purpose@) is None,
            },
    {
        let ghost os = self@.orders;
        let mut i: usize = 0;
        while i < self.orders.len()
            invariant
                i <= self.orders.len(),
                os == self@.orders,
                self@.wf(),
                forall|j: int|
                    0 <= j < i ==> !((#[trigger] os[j]).item == item@ && os[j].owner == owner_view(
                        *owner,
                    ) && os[j].purpose == purpose@),
            decreases self.orders.len() - i,
        {
            if self.orders[i].item == *item && owner_eq(&self.orders[i].owner, owner)
                && self.orders[i].purpose.same_as(purpose) {
                proof {
                    assert(os[i as int].item == item@ && os[i as int].owner == owner_view(*owner)
                        && os[i as int].purpose == purpose@);
                    let k = choose|k: int|
                        0 <= k < os.len() && (#[trigger] os[k]).item == item@ && os[k].owner
                            == owner_view(*owner) && os[k].purpose == purpose@;
                    if k != i {
                        assert(os[k].similar(os[i as int]));
                    }
                }
                return Some(i);
            }
            i = i + 1;
        }
        None
    }

    /// Returns a copy of the order for `item`, `owner` and `purpose`, if there is one.
    pub fn get(&self, item: &String, owner: &Option<String>, purpose: &Purpose) -> (res: Option<Order>)
        requires
            self@.wf(),
        ensures
            match find_order(self@.orders, item@, owner_view(*owner), purpose@) {
                Some(i) => res matches Some(o) && o@ == self@.orders[i],
                None => res is None,
            },
    {
        match self.find(item, owner, purpose) {
            Some(i) => Some(self.orders[i].duplicate()),
            None => None,
        }
    }

    /// Copies of the orders on the board.
    pub fn orders(&self) -> (res: Vec<Order>)
        ensures
            res@.map_values(|o: Order| o@) == self@.orders,
    {
        let mut res: Vec<Order> = Vec::new();
        let mut i: usize = 0;
        while i < self.orders.len()
            invariant
                i <= self.orders.len(),
                res@.len() == i,
                forall|j: int| 0 <= j < i ==> #[trigger] res@[j]@ == self.orders@[j]@,
            decreases self.orders.len() - i,
        {
            res.push(self.orders[i].duplicate());
            i = i + 1;
        }
        assert(res@.map_values(|o: Order| o@) =~= self@.orders);
        res
    }

    /// Whether some order is for `item`.
    pub fn is_ordered(&self, item: &String) -> (res: bool)
        ensures
            res == self@.is_ordered(item@),
    {
        let mut i: usize = 0;
        while i < self.orders.len()
            invariant
                i <= self.orders.len(),
                forall|j: int| 0 <= j < i ==> (#[trigger] self@.orders[j]).item != item@,
            decreases self.orders.len() - i,
        {
            if self.orders[i].item == *item {
                assert(self@.orders[i as int].item == item@);
                return true;
            }
            i = i + 1;
        }
        false
    }

    fn served_before_exec(&self, a: usize, b: usize) -> (res: bool)
        requires
            a < self.orders.len(),
            b < self.orders.len(),
        ensures
            res == served_before(self@.orders, a as int, b as int),
    {
        let x = &self.orders[a];
        let y = &self.orders[b];
        let (ra, rb) = (x.purpose.rank(), y.purpose.rank());
        if ra != rb {
            return ra < rb;
        }
        if x.creation.secs != y.creation.secs {
            return x.creation.secs > y.creation.secs;
        }
        if x.creation.nanos != y.creation.nanos {
            return x.creation.nanos > y.creation.nanos;
        }
        a > b
    }

    /// The positions of the orders in the order in which they are served.
    pub fn priority_indices(&self) -> (res: Vec<usize>)
        ensures
            res@.map_values(|i: usize| i as int) == priority_order(self@.orders),
            is_priority_order(self@.orders, priority_order(self@.orders)),
    {
        let ghost os = self@.orders;
        let n = self.orders.len();
        let mut res: Vec<usize> = Vec::new();
        let mut i: usize = 0;
        while i < n
            invariant
                i <= n,
                n == self.orders.len(),
                os == self@.orders,
                res@.len() == i,
                forall|k: int| 0 <= k < res@.len() ==> #[trigger] res@[k] < i,
                forall|x: int| 0 <= x < i ==> #[trigger] res@.contains(x as usize),
                forall|k: int, l: int|
                    0 <= k < l < res@.len() ==> served_before(os, #[trigger] res@[k] as int, #[trigger] res@[l] as int),
            decreases n - i,
        {
            let mut p: usize = 0;
            while p < res.len() && self.served_before_exec(res[p], i)
                invariant
                    p <= res@.len(),
                    i < n,
                    n == self.orders.len(),
                    os == self@.orders,
                    forall|k: int| 0 <= k < res@.len() ==> #[trigger] res@[k] < i,
                    forall|k: int| 0 <= k < p ==> served_before(os, #[trigger] res@[k] as int, i as int),
                decreases res@.len() - p,
            {
                p = p + 1;
            }
            let ghost before = res@;
            res.insert(p, i);
            proof {
                assert forall|k: int, l: int| 0 <= k < l < res@.len() implies served_before(
                    os,
                    #[trigger] res@[k] as int,
                    #[trigger] res@[l] as int,
                ) by {
                    if l < p {
                        assert(res@[k] == before[k] && res@[l] == before[l]);
                    } else if l == p {
                        assert(res@[k] == before[k]);
                    } else if k == p {
                        assert(res@[l] == before[l - 1]);
                        assert(before[p as int] < i);
                        lemma_served_before_total(os, before[p as int] as int, i as int);
                        if l - 1 > p {
                            lemma_served_before_trans(
                                os,
                                i as int,
                                before[p as int] as int,
                                before[l - 1] as int,
                            );
                        }
                    } else if k < p {
                        assert(res@[k] == before[k] && res@[l] == before[l - 1]);
                    } else {
                        assert(res@[k] == before[k - 1] && res@[l] == before[l - 1]);
                    }
                }
                assert forall|x: int| 0 <= x < i + 1 implies #[trigger] res@.contains(x as usize) by {
                    if x == i {
                        assert(res@[p as int] == i);
                    } else {
                        assert(before.contains(x as usize));
                        let k = choose|k: int| 0 <= k < before.len() && before[k] == x as usize;
                        if k < p {
                            assert(res@[k] == x as usize);
                        } else {
                            assert(res@[k + 1] == x as usize);
                        }
                    }
                }
            }
            i = i + 1;
        }
        proof {
            let pv = res@.map_values(|i: usize| i as int);
            assert forall|x: int| 0 <= x < os.len() implies pv.contains(x) by {
                assert(res@.contains(x as usize));
                let m = choose|m: int| 0 <= m < res@.len() && res@[m] == x as usize;
                assert(pv[m] == x);
            }
            assert(is_priority_order(os, pv)) by {
                assert forall|k: int, l: int| 0 <= k < l < pv.len() implies served_before(
                    os,
                    #[trigger] pv[k],
                    #[trigger] pv[l],
                ) by {
                    assert(served_before(os, res@[k] as int, res@[l] as int));
                }
            }
            let c = priority_order(os);
            assert(is_priority_order(os, c));
            assert forall|x: int| pv.contains(x) <==> c.contains(x) by {
                if pv.contains(x) {
                    let k = choose|k: int| 0 <= k < pv.len() && pv[k] == x;
                    assert(0 <= x < n);
                }
                if c.contains(x) {
                    let k = choose|k: int| 0 <= k < c.len() && c[k] == x;
                    assert(0 <= x < n);
                    assert(res@.contains(x as usize));
                    let m = choose|m: int| 0 <= m < res@.len() && res@[m] == x as usize;
                    assert(pv[m] == x);
                }
            }
            lemma_sorted_lists_equal(os, pv, c);
        }
        res
    }

    /// Copies of the orders, in the order in which they are served.
    pub fn orders_by_priority(&self) -> (res: Vec<Order>)
        ensures
            res@.len() == self@.orders.len(),
            forall|k: int|
                0 <= k < res@.len() ==> #[trigger] res@[k]@ == self@.orders[priority_order(
                    self@.orders,
                )[k]],
    {
        let idx = self.priority_indices();
        let mut res: Vec<Order> = Vec::new();
        let mut k: usize = 0;
        while k < idx.len()
            invariant
                k <= idx.len(),
                idx@.map_values(|i: usize| i as int) == priority_order(self@.orders),
                is_priority_order(self@.orders, priority_order(self@.orders)),
                res@.len() == k,
                forall|j: int|
                    0 <= j < k ==> #[trigger] res@[j]@ == self@.orders[priority_order(
                        self@.orders,
                    )[j]],
            decreases idx.len() - k,
        {
            assert(priority_order(self@.orders)[k as int] == idx@[k as int] as int);
            res.push(self.orders[idx[k]].duplicate());
            k = k + 1;
        }
        res
    }

    /// Places an order for `quantity` of `item`; refused for an unknown item, a zero
    /// quantity, or when a similar order exists.
    pub fn add(&mut self, item: &String, quantity: u32, owner: &Option<String>, purpose: Purpose) -> (res: Result<
        (),
        OrderError,
    >)
        requires
            old(self)@.wf(),
        ensures
            res == old(self)@.add_outcome(item@, quantity as nat, owner_view(*owner), purpose@),
            res is Ok ==> pushed_order(
                old(self)@.orders,
                final(self)@.orders,
                item@,
                quantity as nat,
                owner_view(*owner),
                purpose@,
            ),
            res is Err ==> final(self)@.orders == old(self)@.orders,
            final(self)@.known_items == old(self)@.known_items,
            final(self)@.wf(),
    {
        if !self.knows(item) {
            return Err(OrderError::UnknownItem);
        }
        if quantity < 1 {
            return Err(OrderError::InvalidQuantity);
        }
        if self.find(item, owner, &purpose).is_some() {
            return Err(OrderError::AlreadyExists);
        }
        let order = match Order::new(owner.as_ref(), item, quantity, purpose) {
            Ok(o) => o,
            Err(e) => return Err(e),
        };
        let ghost before = self@.orders;
        self.orders.push(order);
        proof {
            let after = self@.orders;
            assert(after.drop_last() =~= before);
            assert(after[before.len() as int] == after.last());
            assert forall|i: int, j: int|
                0 <= i < after.len() && 0 <= j < after.len() && i != j implies !(
            #[trigger] after[i]).similar(#[trigger] after[j]) by {
                if i < before.len() && j < before.len() {
                    assert(after[i] == before[i] && after[j] == before[j]);
                } else if i < before.len() {
                    assert(after[i] == before[i]);
                } else {
                    assert(after[j] == before[j]);
                }
            }
        }
        Ok(())
    }

    /// Places each of `items` as an order; fails only when none of them could be placed.
    pub fn add_multiple(&mut self, items: &[SimpleItemSchema], owner: &Option<String>, purpose: &Purpose) -> (res:
        Result<(), OrderError>)
        requires
            old(self)@.wf(),
        ensures
            final(self)@.wf(),
            final(self)@.known_items == old(self)@.known_items,
            pushed_orders(
                old(self)@.orders,
                final(self)@.orders,
                accepted_items(old(self)@, items_view(items@), owner_view(*owner), purpose@),
                owner_view(*owner),
                purpose@,
            ),
            res is Ok <==> accepted_items(
                old(self)@,
                items_view(items@),
                owner_view(*owner),
                purpose@,
            ).len() > 0,
            res is Err ==> res == Err::<(), OrderError>(OrderError::AlreadyExists),
    {
        let ghost start = self@;
        let ghost all = items_view(items@);
        let ghost ow = owner_view(*owner);
        assert(all.take(0) =~= Seq::<ItemQuantity>::empty());
        assert(self@.orders.take(self@.orders.len() as int) =~= self@.orders);
        let mut ordered = false;
        let mut i: usize = 0;
        while i < items.len()
            invariant
                i <= items.len(),
                self@.wf(),
                self@.known_items == start.known_items,
                start == old(self)@,
                all == items_view(items@),
                ow == owner_view(*owner),
                pushed_orders(
                    start.orders,
                    self@.orders,
                    accepted_items(start, all.take(i as int), ow, purpose@),
                    ow,
                    purpose@,
                ),
                ordered <==> accepted_items(start, all.take(i as int), ow, purpose@).len() > 0,
            decreases items.len() - i,
        {
            let ghost pre = self@.orders;
            let ghost acc = accepted_items(start, all.take(i as int), ow, purpose@);
            let ghost m = all[i as int];
            proof {
                assert(all.take(i + 1).drop_last() =~= all.take(i as int));
                assert(all.take(i + 1).last() == m);
                lemma_find_in_pushed(start.orders, pre, acc, ow, purpose@, m.code);
            }
            if self.add(&items[i].code, items[i].quantity, owner, purpose.duplicate()).is_ok() {
                ordered = true;
                proof {
                    let post = self@.orders;
                    let acc2 = acc.push(m);
                    assert(accepted_items(start, all.take(i + 1), ow, purpose@) == acc2);
                    assert forall|k: int| 0 <= k < start.orders.len() implies post[k] == start.orders[k] by {
                        assert(post.drop_last()[k] == pre[k]);
                        assert(pre.take(start.orders.len() as int)[k] == pre[k]);
                    }
                    assert(post.take(start.orders.len() as int) =~= start.orders);
                    assert forall|k: int| 0 <= k < acc2.len() implies {
                        let o = #[trigger] post[start.orders.len() + k];
                        &&& o.item == acc2[k].code
                        &&& o.quantity == acc2[k].quantity
                        &&& o.owner == ow
                        &&& o.purpose == purpose@
                        &&& o.deposited == 0
                        &&& o.in_progress == 0
                    } by {
                        if k < acc.len() {
                            assert(post.drop_last()[start.orders.len() + k] == pre[start.orders.len() + k]);
                        }
                    }
                }
            } else {
                proof {
                    assert(accepted_items(start, all.take(i + 1), ow, purpose@) == acc);
                }
            }
            i = i + 1;
        }
        assert(all.take(i as int) =~= all);
        if ordered {
            Ok(())
        } else {
            Err(OrderError::AlreadyExists)
        }
    }

    /// Resets what was deposited of the order for `item`, `owner` and `purpose`, or
    /// places the order when there is none.
    pub fn add_or_reset(&mut self, item: &String, quantity: u32, owner: &Option<String>, purpose: Purpose) -> (res:
        Result<(), OrderError>)
        requires
            old(self)@.wf(),
        ensures
            final(self)@.wf(),
            final(self)@.known_items == old(self)@.known_items,
            match find_order(old(self)@.orders, item@, owner_view(*owner), purpose@) {
                Some(i) => res is Ok && final(self)@.orders == old(self)@.orders.update(
                    i,
                    OrderView { deposited: 0, ..old(self)@.orders[i] },
                ),
                None => {
                    &&& res == old(self)@.add_outcome(
                        item@,
                        quantity as nat,
                        owner_view(*owner),
                        purpose@,
                    )
                    &&& res is Ok ==> pushed_order(
                        old(self)@.orders,
                        final(self)@.orders,
                        item@,
                        quantity as nat,
                        owner_view(*owner),
                        purpose@,
                    )
                    &&& res is Err ==> final(self)@.orders == old(self)@.orders
                },
            },
    {
        match self.find(item, owner, &purpose) {
            Some(i) => {
                let ghost before = self@.orders;
                let mut o = self.orders[i].duplicate();
                o.reset();
                self.orders.set(i, o);
                proof {
                    let after = self@.orders;
                    assert(after =~= before.update(
                        i as int,
                        OrderView { deposited: 0, ..before[i as int] },
                    ));
                    assert forall|a: int, b: int|
                        0 <= a < after.len() && 0 <= b < after.len() && a != b implies !(
                    #[trigger] after[a]).similar(#[trigger] after[b]) by {
                        assert(!before[a].similar(before[b]));
                    }
                }
                Ok(())
            },
            None => self.add(item, quantity, owner, purpose),
        }
    }

    /// Removes the orders similar to `order`.
    pub fn remove(&mut self, order: &Order)
        requires
            old(self)@.wf(),
        ensures
            final(self)@.orders == old(self)@.orders.filter(|o: OrderView| !o.similar(order@)),
            final(self)@.known_items == old(self)@.known_items,
            final(self)@.wf(),
    {
        let ghost os = self@.orders;
        let ghost pred = |o: OrderView| !o.similar(order@);
        let mut kept_orders: Vec<Order> = Vec::new();
        let mut i: usize = 0;
        assert(os.take(0).filter(pred) =~= Seq::<OrderView>::empty()) by {
            reveal(Seq::filter);
        }
        while i < self.orders.len()
            invariant
                i <= self.orders.len(),
                os == self@.orders,
                pred == (|o: OrderView| !o.similar(order@)),
                kept_orders@.map_values(|o: Order| o@) == os.take(i as int).filter(pred),
            decreases self.orders.len() - i,
        {
            proof {
                reveal(Seq::filter);
                assert(os.take(i + 1).drop_last() =~= os.take(i as int));
                assert(os.take(i + 1).last() == os[i as int]);
            }
            if !self.orders[i].is_similar(order) {
                kept_orders.push(self.orders[i].duplicate());
                assert(kept_orders@.map_values(|o: Order| o@) =~= os.take(i as int).filter(
                    pred,
                ).push(os[i as int]));
            }
            i = i + 1;
        }
        assert(os.take(i as int) =~= os);
        self.orders = kept_orders;
        proof {
            let after = self@.orders;
            lemma_filter_distinct(os, pred);
        }
    }

    /// Whether the order can be completed with what the inventories hold and what
    /// is being gathered for it.
    pub fn should_be_turned_in(&self, order: &Order, available_in_inventories: u32) -> (res: bool)
        requires
            available_in_inventories + order@.in_progress <= u32::MAX,
        ensures
            res == (!order@.turned_in() && order@.missing() <= available_in_inventories
                + order@.in_progress),
    {
        !order.turned_in() && order.missing() <= available_in_inventories + order.in_progress()
    }

    /// The quantity of the order that is neither deposited, held in the inventories,
    /// nor being gathered.
    pub fn total_missing_for(&self, order: &Order, available_in_inventories: u32) -> (res: u32)
        ensures
            res == saturating_sub(
                saturating_sub(order@.missing(), available_in_inventories as nat),
                order@.in_progress,
            ),
    {
        order.missing().saturating_sub(available_in_inventories).saturating_sub(order.in_progress())
    }

    /// Deals each of the deposited `items` out to the orders for it, in the order in
    /// which they are served; reserves in `bank` the part taken by an owned order for
    /// its owner, and removes the orders fully deposited.
    pub fn register_deposited_items(&mut self, items: &[SimpleItemSchema], bank: &mut BankController)
        requires
            old(self)@.wf(),
            old(bank)@.wf(),
        ensures
            (final(self)@.orders, final(bank)@) == after_deposits(
                old(self)@.orders,
                old(bank)@,
                items_view(items@),
            ),
            final(self)@.known_items == old(self)@.known_items,
            final(self)@.wf(),
            final(bank)@.wf(),
    {
        let ghost all = items_view(items@);
        let mut i: usize = 0;
        assert(all.skip(0) =~= all);
        while i < items.len()
            invariant
                i <= items.len(),
                all == items_view(items@),
                self@.wf(),
                bank@.wf(),
                self@.known_items == old(self)@.known_items,
                after_deposits(old(self)@.orders, old(bank)@, all) == after_deposits(
                    self@.orders,
                    bank@,
                    all.skip(i as int),
                ),
            decreases items.len() - i,
        {
            assert(all.skip(i as int)[0] == all[i as int]);
            assert(all.skip(i as int).drop_first() =~= all.skip(i + 1));
            self.register_deposit(&items[i].code, items[i].quantity, bank);
            i = i + 1;
        }
        assert(all.skip(i as int) =~= Seq::<ItemQuantity>::empty());
    }

    fn register_deposit(&mut self, code: &String, quantity: u32, bank: &mut BankController)
        requires
            old(self)@.wf(),
            old(bank)@.wf(),
        ensures
            (final(self)@.orders, final(bank)@) == after_deposit(
                old(self)@.orders,
                old(bank)@,
                code@,
                quantity as nat,
            ),
            final(self)@.known_items == old(self)@.known_items,
            final(self)@.wf(),
            final(bank)@.wf(),
    {
        let ghost os0 = self@.orders;
        let ghost bank0 = bank@;
        let p = self.priority_indices();
        let ghost pv = p@.map_values(|i: usize| i as int);
        assert forall|j: int| 0 <= j < p@.len() implies #[trigger] p@[j] < os0.len() by {
            assert(pv[j] == p@[j] as int);
        }
        let n = self.orders.len();
        let mut removed: Vec<bool> = Vec::new();
        let mut z: usize = 0;
        while z < n
            invariant
                z <= n,
                removed@.len() == z,
                forall|j: int| 0 <= j < z ==> !#[trigger] removed@[j],
            decreases n - z,
        {
            removed.push(false);
            z = z + 1;
        }
        assert(removed@ =~= Seq::new(os0.len(), |i: int| false));
        let mut remaining = quantity;
        let mut k: usize = 0;
        assert(pv.skip(0) =~= pv);
        while k < p.len() && remaining > 0
            invariant
                k <= p.len(),
                pv == p@.map_values(|i: usize| i as int),
                pv == priority_order(os0),
                p@.len() == n,
                n == os0.len(),
                self@.orders.len() == n,
                removed@.len() == n,
                self@.known_items == old(self)@.known_items,
                forall|j: int| 0 <= j < n ==> #[trigger] p@[j] < n,
                bank@.wf(),
                forall|j: int| 0 <= j < n ==> (#[trigger] self@.orders[j]).similar(os0[j]),
                deal_deposit(
                    os0,
                    bank0,
                    Seq::new(os0.len(), |i: int| false),
                    pv,
                    code@,
                    quantity as nat,
                ) == deal_deposit(self@.orders, bank@, removed@, pv.skip(k as int), code@, remaining as nat),
            decreases p.len() - k,
        {
            let i = p[k];
            assert(pv.skip(k as int)[0] == i as int);
            assert(pv.skip(k as int).drop_first() =~= pv.skip(k + 1));
            if self.orders[i].item == *code {
                let ghost before = self@.orders;
                let q = self.orders[i].quantity;
                let x = if q < remaining {
                    q
                } else {
                    remaining
                };
                let mut o = self.orders[i].duplicate();
                o.inc_deposited(x);
                let done = o.turned_in();
                match &o.owner {
                    Some(w) => {
                        let _ = bank.inc_reservation(code, x, w);
                    },
                    None => {},
                }
                self.orders.set(i, o);
                if done {
                    removed.set(i, true);
                }
                remaining = remaining - x;
                proof {
                    assert(self@.orders =~= before.update(
                        i as int,
                        OrderView { deposited: ((before[i as int].deposited + x) % 0x1_0000_0000) as nat, ..before[i as int] },
                    ));
                    assert forall|j: int| 0 <= j < n implies (#[trigger] self@.orders[j]).similar(
                        os0[j],
                    ) by {
                        assert(before[j].similar(os0[j]));
                    }
                }
            }
            k = k + 1;
        }
        proof {
            if k == p.len() {
                assert(pv.skip(k as int).len() == 0);
            }
        }
        let ghost dealt = self@.orders;
        // Orders flagged as fully deposited leave the board.
        let mut kept_orders: Vec<Order> = Vec::new();
        let mut j: usize = 0;
        while j < self.orders.len()
            invariant
                j <= self.orders.len(),
                dealt == self@.orders,
                removed@.len() == dealt.len(),
                kept_orders@.map_values(|o: Order| o@) == kept(dealt.take(j as int), removed@),
            decreases self.orders.len() - j,
        {
            assert(dealt.take(j + 1).drop_last() =~= dealt.take(j as int));
            assert(dealt.take(j + 1).last() == dealt[j as int]);
            if !removed[j] {
                kept_orders.push(self.orders[j].duplicate());
            }
            assert(kept_orders@.map_values(|o: Order| o@) =~= kept(dealt.take(j + 1), removed@));
            j = j + 1;
        }
        assert(dealt.take(j as int) =~= dealt);
        self.orders = kept_orders;
        proof {
            assert forall|a: int, b: int|
                0 <= a < dealt.len() && 0 <= b < dealt.len() && a != b implies !(
            #[trigger] dealt[a]).similar(#[trigger] dealt[b]) by {
                assert(dealt[a].similar(os0[a]));
                assert(dealt[b].similar(os0[b]));
                assert(!os0[a].similar(os0[b]));
            }
            lemma_kept_distinct(dealt, removed@);
        }
    }
}

proof fn lemma_filter_distinct(os: Seq<OrderView>, pred: spec_fn(OrderView) -> bool)
    requires
        orders_distinct(os),
    ensures
        orders_distinct(os.filter(pred)),
        forall|k: int| 0 <= k < os.filter(pred).len() ==> os.contains(#[trigger] os.filter(pred)[k]),
    decreases os.len(),
{
    reveal(Seq::filter);
    if os.len() > 0 {
        let d = os.drop_last();
        assert forall|i: int, j: int|
            0 <= i < d.len() && 0 <= j < d.len() && i != j implies !(#[trigger] d[i]).similar(
            #[trigger] d[j],
        ) by {
            assert(d[i] == os[i] && d[j] == os[j]);
        }
        lemma_filter_distinct(d, pred);
        let f = os.filter(pred);
        let fd = d.filter(pred);
        let last = os.last();
        assert forall|k: int| 0 <= k < fd.len() implies os.contains(#[trigger] fd[k]) by {
            let m = choose|m: int| 0 <= m < d.len() && d[m] == fd[k];
            assert(os[m] == fd[k]);
        }
        assert forall|k: int| 0 <= k < fd.len() implies !last.similar(#[trigger] fd[k])
            && !fd[k].similar(last) by {
            let m = choose|m: int| 0 <= m < d.len() && d[m] == fd[k];
            assert(os[m] == fd[k]);
            assert(!os[os.len() - 1].similar(os[m]));
            assert(!os[m].similar(os[os.len() - 1]));
        }
        if pred(last) {
            assert(f == fd.push(last));
            assert(os.contains(last)) by {
                assert(os[os.len() - 1] == last);
            }
            assert forall|i: int, j: int|
                0 <= i < f.len() && 0 <= j < f.len() && i != j implies !(#[trigger] f[i]).similar(
                #[trigger] f[j],
            ) by {
                if i < fd.len() && j < fd.len() {
                    assert(f[i] == fd[i] && f[j] == fd[j]);
                } else if i < fd.len() {
                    assert(f[i] == fd[i]);
                } else {
                    assert(f[j] == fd[j]);
                }
            }
        } else {
            assert(f == fd);
        }
    }
}

proof fn lemma_kept_distinct(os: Seq<OrderView>, removed: Seq<bool>)
    requires
        orders_distinct(os),
        removed.len() == os.len(),
    ensures
        orders_distinct(kept(os, removed)),
        forall|k: int| 0 <= k < kept(os, removed).len() ==> os.contains(#[trigger] kept(os, removed)[k]),
    decreases os.len(),
{
    if os.len() > 0 {
        let d = os.drop_last();
        assert forall|i: int, j: int|
            0 <= i < d.len() && 0 <= j < d.len() && i != j implies !(#[trigger] d[i]).similar(
            #[trigger] d[j],
        ) by {
            assert(d[i] == os[i] && d[j] == os[j]);
        }
        lemma_kept_prefix(os, removed);
        lemma_kept_distinct(d, removed.drop_last());
        let f = kept(os, removed);
        let fd = kept(d, removed);
        let last = os.last();
        assert forall|k: int| 0 <= k < fd.len() implies os.contains(#[trigger] fd[k]) by {
            let m = choose|m: int| 0 <= m < d.len() && d[m] == fd[k];
            assert(os[m] == fd[k]);
        }
        assert forall|k: int| 0 <= k < fd.len() implies !last.similar(#[trigger] fd[k])
            && !fd[k].similar(last) by {
            let m = choose|m: int| 0 <= m < d.len() && d[m] == fd[k];
            assert(os[m] == fd[k]);
            assert(!os[os.len() - 1].similar(os[m]));
            assert(!os[m].similar(os[os.len() - 1]));
        }
        if !removed[os.len() - 1] {
            assert(f == fd.push(last));
            assert(os.contains(last)) by {
                assert(os[os.len() - 1] == last);
            }
            assert forall|i: int, j: int|
                0 <= i < f.len() && 0 <= j < f.len() && i != j implies !(#[trigger] f[i]).similar(
                #[trigger] f[j],
            ) by {
                if i < fd.len() && j < fd.len() {
                    assert(f[i] == fd[i] && f[j] == fd[j]);
                } else if i < fd.len() {
                    assert(f[i] == fd[i]);
                } else {
                    assert(f[j] == fd[j]);
                }
            }
        }
    }
}

/// Only the flags of the positions present matter.
proof fn lemma_kept_prefix(os: Seq<OrderView>, removed: Seq<bool>)
    requires
        removed.len() == os.len(),
        os.len() > 0,
    ensures
        kept(os.drop_last(), removed) == kept(os.drop_last(), removed.drop_last()),
{
    lemma_kept_flags(os.drop_last(), removed, removed.drop_last());
}

proof fn lemma_kept_flags(os: Seq<OrderView>, r1: Seq<bool>, r2: Seq<bool>)
    requires
        os.len() <= r1.len(),
        os.len() <= r2.len(),
        forall|i: int| 0 <= i < os.len() ==> r1[i] == r2[i],
    ensures
        kept(os, r1) == kept(os, r2),
    decreases os.len(),
{
    if os.len() > 0 {
        lemma_kept_flags(os.drop_last(), r1, r2);
    }
}

/// An order just placed is the one the board finds for its item, owner and purpose.
pub proof fn law_added_order_is_found(
    old_orders: Seq<OrderView>,
    new_orders: Seq<OrderView>,
    item: Seq<char>,
    quantity: nat,
    owner: Option<Seq<char>>,
    purpose: PurposeView,
)
    requires
        orders_distinct(new_orders),
        pushed_order(old_orders, new_orders, item, quantity, owner, purpose),
    ensures
        find_order(new_orders, item, owner, purpose) == Some(old_orders.len() as int),
        new_orders[old_orders.len() as int].quantity == quantity,
{
    let n = old_orders.len() as int;
    assert(new_orders[n] == new_orders.last());
    let k = choose|k: int|
        0 <= k < new_orders.len() && (#[trigger] new_orders[k]).item == item && new_orders[k].owner
            == owner && new_orders[k].purpose == purpose;
    if k != n {
        assert(new_orders[k].similar(new_orders[n]));
    }
}

/// After an order is removed, no order similar to it is left on the board.
pub proof fn law_removed_order_is_gone(orders: Seq<OrderView>, order: OrderView)
    ensures
        find_order(
            orders.filter(|o: OrderView| !o.similar(order)),
            order.item,
            order.owner,
            order.purpose,
        ) is None,
{
    let pred = |o: OrderView| !o.similar(order);
    let f = orders.filter(pred);
    assert forall|i: int| 0 <= i < f.len() implies !((#[trigger] f[i]).item == order.item
        && f[i].owner == order.owner && f[i].purpose == order.purpose) by {
        broadcast use vstd::seq_lib::group_filter_ensures;
        assert(pred(f[i]));
    }
}

/// Dealing out a deposit never adds orders to the board.
pub proof fn law_deposit_never_adds_orders(
    orders: Seq<OrderView>,
    bank: BankView,
    code: Seq<char>,
    quantity: nat,
)
    ensures
        after_deposit(orders, bank, code, quantity).0.len() <= orders.len(),
{
    law_priority_order_exists(orders);
    let dealt = deal_deposit(
        orders,
        bank,
        Seq::new(orders.len(), |i: int| false),
        priority_order(orders),
        code,
        quantity,
    );
    lemma_deal_keeps_len(
        orders,
        bank,
        Seq::new(orders.len(), |i: int| false),
        priority_order(orders),
        code,
        quantity,
    );
    lemma_kept_len(dealt.0, dealt.2);
}

proof fn lemma_deal_keeps_len(
    orders: Seq<OrderView>,
    bank: BankView,
    removed: Seq<bool>,
    p: Seq<int>,
    code: Seq<char>,
    remaining: nat,
)
    requires
        forall|k: int| 0 <= k < p.len() ==> 0 <= #[trigger] p[k] < orders.len(),
        removed.len() == orders.len(),
    ensures
        deal_deposit(orders, bank, removed, p, code, remaining).0.len() == orders.len(),
        deal_deposit(orders, bank, removed, p, code, remaining).2.len() == removed.len(),
    decreases p.len(),
{
    if p.len() > 0 && remaining > 0 {
        let i = p[0];
        let o = orders[i];
        if o.item == code {
            let x = if o.quantity < remaining {
                o.quantity
            } else {
                remaining
            };
            let o2 = OrderView { deposited: (o.deposited + x) % 0x1_0000_0000, ..o };
            let bank2 = match o.owner {
                Some(w) => bank.after_inc(code, x, w).0,
                None => bank,
            };
            let removed2 = if o2.turned_in() {
                removed.update(i, true)
            } else {
                removed
            };
            lemma_deal_keeps_len(
                orders.update(i, o2),
                bank2,
                removed2,
                p.drop_first(),
                code,
                (remaining - x) as nat,
            );
        } else {
            lemma_deal_keeps_len(orders, bank, removed, p.drop_first(), code, remaining);
        }
    }
}

/// The number of leading entries of `l` served before `x`.
spec fn insert_pos(orders: Seq<OrderView>, l: Seq<int>, x: int) -> nat
    decreases l.len(),
{
    if l.len() == 0 {
        0
    } else if served_before(orders, l[0], x) {
        1 + insert_pos(orders, l.drop_first(), x)
    } else {
        0
    }
}

proof fn lemma_insert_pos(orders: Seq<OrderView>, l: Seq<int>, x: int)
    ensures
        insert_pos(orders, l, x) <= l.len(),
        forall|k: int| 0 <= k < insert_pos(orders, l, x) ==> served_before(orders, #[trigger] l[k], x),
        insert_pos(orders, l, x) < l.len() ==> !served_before(orders, l[insert_pos(orders, l, x) as int], x),
    decreases l.len(),
{
    if l.len() > 0 && served_before(orders, l[0], x) {
        lemma_insert_pos(orders, l.drop_first(), x);
        assert forall|k: int| 0 <= k < insert_pos(orders, l, x) implies served_before(
            orders,
            #[trigger] l[k],
            x,
        ) by {
            if k > 0 {
                assert(l[k] == l.drop_first()[k - 1]);
            }
        }
    }
}

/// The positions `0..m` of `orders`, each once, in the order in which they are served.
spec fn sorted_prefix(orders: Seq<OrderView>, l: Seq<int>, m: int) -> bool {
    &&& l.len() == m
    &&& forall|k: int| 0 <= k < l.len() ==> 0 <= #[trigger] l[k] < m
    &&& forall|x: int| 0 <= x < m ==> l.contains(x)
    &&& forall|k: int, j: int| 0 <= k < j < l.len() ==> served_before(orders, #[trigger] l[k], #[trigger] l[j])
}

proof fn lemma_sorted_prefix_exists(orders: Seq<OrderView>, m: int)
    requires
        0 <= m,
    ensures
        exists|l: Seq<int>| #[trigger] sorted_prefix(orders, l, m),
    decreases m,
{
    if m == 0 {
        assert(sorted_prefix(orders, Seq::<int>::empty(), 0));
    } else {
        lemma_sorted_prefix_exists(orders, m - 1);
        let l = choose|l: Seq<int>| #[trigger] sorted_prefix(orders, l, m - 1);
        let x = m - 1;
        lemma_insert_pos(orders, l, x);
        let pos = insert_pos(orders, l, x) as int;
        let r = l.insert(pos, x);
        assert forall|k: int, j: int| 0 <= k < j < r.len() implies served_before(
            orders,
            #[trigger] r[k],
            #[trigger] r[j],
        ) by {
            if j < pos {
                assert(r[k] == l[k] && r[j] == l[j]);
            } else if j == pos {
                assert(r[k] == l[k]);
            } else if k == pos {
                assert(r[j] == l[j - 1]);
                lemma_served_before_total(orders, l[pos], x);
                if j - 1 > pos {
                    lemma_served_before_trans(orders, x, l[pos], l[j - 1]);
                }
            } else if k < pos {
                assert(r[k] == l[k] && r[j] == l[j - 1]);
            } else {
                assert(r[k] == l[k - 1] && r[j] == l[j - 1]);
            }
        }
        assert forall|y: int| 0 <= y < m implies r.contains(y) by {
            if y == x {
                assert(r[pos] == x);
            } else {
                assert(l.contains(y));
                let k = choose|k: int| 0 <= k < l.len() && l[k] == y;
                if k < pos {
                    assert(r[k] == y);
                } else {
                    assert(r[k + 1] == y);
                }
            }
        }
        assert forall|k: int| 0 <= k < r.len() implies 0 <= #[trigger] r[k] < m by {
            if k < pos {
                assert(r[k] == l[k]);
            } else if k > pos {
                assert(r[k] == l[k - 1]);
            }
        }
        assert(sorted_prefix(orders, r, m));
    }
}

/// Every board can be listed in the order in which its orders are served.
pub proof fn law_priority_order_exists(orders: Seq<OrderView>)
    ensures
        is_priority_order(orders, priority_order(orders)),
{
    lemma_sorted_prefix_exists(orders, orders.len() as int);
    let l = choose|l: Seq<int>| #[trigger] sorted_prefix(orders, l, orders.len() as int);
    assert(is_priority_order(orders, l));
}

/// The order in which the orders are served is the only listing of them, each
/// once, with each order served before the ones after it.
pub proof fn law_priority_order_unique(orders: Seq<OrderView>, p: Seq<int>)
    requires
        is_priority_order(orders, p),
    ensures
        p == priority_order(orders),
{
    law_priority_order_exists(orders);
    lemma_priority_order_unique(orders, p, priority_order(orders));
}

/// Purposes rank in the order in which they are declared: food before the command
/// line, the command line before gear, gear before tasks, tasks before leveling.
pub proof fn law_purpose_ranks_follow_declaration(p: PurposeView, q: PurposeView)
    ensures
        (p is Food && !(q is Food)) ==> purpose_rank(p) < purpose_rank(q),
        (p is Cli && (q is Gear || q is Task || q is Leveling)) ==> purpose_rank(p) < purpose_rank(q),
        (p is Gear && (q is Task || q is Leveling)) ==> purpose_rank(p) < purpose_rank(q),
        (p is Task && q is Leveling) ==> purpose_rank(p) < purpose_rank(q),
        (p is Food <==> q is Food) && (p is Cli <==> q is Cli) && (p is Gear <==> q is Gear) && (p is Task
            <==> q is Task) ==> purpose_rank(p) == purpose_rank(q),
{
}

/// An order for gear is served before an order for a task, whenever either was
/// created: it comes first in the order in which the orders are served.
pub proof fn law_gear_served_before_task(orders: Seq<OrderView>, a: int, b: int)
    requires
        0 <= a < orders.len(),
        0 <= b < orders.len(),
        orders[a].purpose is Gear,
        orders[b].purpose is Task,
    ensures
        served_before(orders, a, b),
        !served_before(orders, b, a),
        forall|k: int, l: int|
            0 <= k < orders.len() && 0 <= l < orders.len() && #[trigger] priority_order(orders)[k] == a
                && #[trigger] priority_order(orders)[l] == b ==> k < l,
{
    law_priority_order_exists(orders);
    let p = priority_order(orders);
    assert forall|k: int, l: int|
        0 <= k < orders.len() && 0 <= l < orders.len() && #[trigger] priority_order(orders)[k] == a
            && #[trigger] priority_order(orders)[l] == b implies k < l by {
        if l < k {
            assert(served_before(orders, p[l], p[k]));
        }
    }
}

proof fn lemma_kept_len(os: Seq<OrderView>, removed: Seq<bool>)
    ensures
        kept(os, removed).len() <= os.len(),
    decreases os.len(),
{
    if os.len() > 0 {
        lemma_kept_len(os.drop_last(), removed);
    }
}

} // verus!
