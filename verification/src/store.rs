//! The storage model: the product, user, order and cart tables as explicit
//! in-memory state, with the well-formedness invariant every operation of the
//! lifecycle service preserves.
//!
//! Each multi-statement operation on this state is a Rust function that
//! either applies all of its writes or, on refusal, leaves the state exactly
//! as it was: the atomic unit a database transaction provides is here a
//! proved postcondition.

use vstd::prelude::*;

use crate::errors::OrderError;
use crate::status::OrderStatus;

verus! {

/// A product row, with the stock count the inventory ledger owns.
/// Stock is signed: checkout debits unconditionally, so a row may be driven
/// negative and reconciled later.
pub struct Product {
    pub id: u64,
    pub category_id: u64,
    pub name: String,
    /// List price, in minor currency units.
    pub price: u64,
    /// Sale price, if one is set; it then takes precedence over `price`.
    pub sale_price: Option<u64>,
    pub stock: i64,
    /// Soft-deletion flag; deleted rows stay, so old orders keep their join.
    pub is_deleted: bool,
}

/// A user row, with the points balance the loyalty ledger owns.
/// The balance is unsigned: every debit is floored at zero by the ledger.
pub struct UserAccount {
    pub id: u64,
    pub email: String,
    pub points: u64,
    pub is_admin: bool,
}

/// Shipping details captured with an order at checkout.
pub struct ShippingInfo {
    pub name: String,
    pub phone: String,
    pub address: String,
    pub note: Option<String>,
}

/// One line of an order: the quantity and the unit price captured at the
/// moment of purchase, immutable thereafter.
pub struct OrderItem {
    pub product_id: u64,
    pub quantity: u32,
    pub price: u64,
}

/// An order and the line items it owns, as one consistency unit.
pub struct Order {
    pub id: u64,
    pub user_id: u64,
    pub total_amount: u64,
    pub final_amount: u64,
    /// Loyalty points granted on completion; fixed at creation, never
    /// recomputed.
    pub points_earned: u64,
    pub status: OrderStatus,
    pub payment_method: String,
    pub shipping: ShippingInfo,
    /// Creation instant, in seconds of Unix time.
    pub created_at: i64,
    pub items: Vec<OrderItem>,
}

/// One line of a user's cart; ephemeral, consumed by checkout.
pub struct CartItem {
    pub user_id: u64,
    pub product_id: u64,
    pub quantity: u32,
}

/// A catalog category row.
pub struct Category {
    pub id: u64,
    pub name: String,
}

/// The whole storage state the core operates on.
pub struct Store {
    pub products: Vec<Product>,
    pub users: Vec<UserAccount>,
    pub orders: Vec<Order>,
    pub cart: Vec<CartItem>,
    pub categories: Vec<Category>,
    /// Source of fresh row ids; every existing row id is below it.
    pub next_id: u64,
}

// ---------------------------------------------------------------------------
// Row lookup, by id, at the specification level.
//
// Each table keeps its ids unique, so `choose` picks the one witness index.
// ---------------------------------------------------------------------------

pub open spec fn unique_product_ids(ps: Seq<Product>) -> bool {
    forall|i: int, j: int| 0 <= i < j < ps.len() ==> ps[i].id != ps[j].id
}

pub open spec fn has_product(ps: Seq<Product>, pid: u64) -> bool {
    exists|i: int| 0 <= i < ps.len() && ps[i].id == pid
}

pub open spec fn pidx(ps: Seq<Product>, pid: u64) -> int {
    choose|i: int| 0 <= i < ps.len() && ps[i].id == pid
}

pub open spec fn product_of(ps: Seq<Product>, pid: u64) -> Product {
    ps[pidx(ps, pid)]
}

pub open spec fn stock_of(ps: Seq<Product>, pid: u64) -> int {
    product_of(ps, pid).stock as int
}

/// In a table with unique ids, the row holding `ps[i].id` is row `i`.
pub proof fn lemma_pidx_of(ps: Seq<Product>, i: int)
    requires
        unique_product_ids(ps),
        0 <= i < ps.len(),
    ensures
        has_product(ps, ps[i].id),
        pidx(ps, ps[i].id) == i,
{
    let pid = ps[i].id;
    assert(has_product(ps, pid));
    let j = pidx(ps, pid);
    if j != i {
        if j < i {
            assert(ps[j].id != ps[i].id);
        } else {
            assert(ps[i].id != ps[j].id);
        }
    }
}

pub open spec fn unique_user_ids(us: Seq<UserAccount>) -> bool {
    forall|i: int, j: int| 0 <= i < j < us.len() ==> us[i].id != us[j].id
}

pub open spec fn has_user(us: Seq<UserAccount>, uid: u64) -> bool {
    exists|i: int| 0 <= i < us.len() && us[i].id == uid
}

pub open spec fn uidx(us: Seq<UserAccount>, uid: u64) -> int {
    choose|i: int| 0 <= i < us.len() && us[i].id == uid
}

pub open spec fn user_of(us: Seq<UserAccount>, uid: u64) -> UserAccount {
    us[uidx(us, uid)]
}

pub open spec fn points_of(us: Seq<UserAccount>, uid: u64) -> int {
    user_of(us, uid).points as int
}

/// In a table with unique ids, the row holding `us[i].id` is row `i`.
pub proof fn lemma_uidx_of(us: Seq<UserAccount>, i: int)
    requires
        unique_user_ids(us),
        0 <= i < us.len(),
    ensures
        has_user(us, us[i].id),
        uidx(us, us[i].id) == i,
{
    let uid = us[i].id;
    assert(has_user(us, uid));
    let j = uidx(us, uid);
    if j != i {
        if j < i {
            assert(us[j].id != us[i].id);
        } else {
            assert(us[i].id != us[j].id);
        }
    }
}

pub open spec fn unique_order_ids(os: Seq<Order>) -> bool {
    forall|i: int, j: int| 0 <= i < j < os.len() ==> os[i].id != os[j].id
}

pub open spec fn has_order(os: Seq<Order>, oid: u64) -> bool {
    exists|i: int| 0 <= i < os.len() && os[i].id == oid
}

pub open spec fn oidx(os: Seq<Order>, oid: u64) -> int {
    choose|i: int| 0 <= i < os.len() && os[i].id == oid
}

pub open spec fn order_of(os: Seq<Order>, oid: u64) -> Order {
    os[oidx(os, oid)]
}

/// In a table with unique ids, the row holding `os[i].id` is row `i`.
pub proof fn lemma_oidx_of(os: Seq<Order>, i: int)
    requires
        unique_order_ids(os),
        0 <= i < os.len(),
    ensures
        has_order(os, os[i].id),
        oidx(os, os[i].id) == i,
{
    let oid = os[i].id;
    assert(has_order(os, oid));
    let j = oidx(os, oid);
    if j != i {
        if j < i {
            assert(os[j].id != os[i].id);
        } else {
            assert(os[i].id != os[j].id);
        }
    }
}

pub open spec fn unique_category_ids(cs: Seq<Category>) -> bool {
    forall|i: int, j: int| 0 <= i < j < cs.len() ==> cs[i].id != cs[j].id
}

pub open spec fn has_category(cs: Seq<Category>, cid: u64) -> bool {
    exists|i: int| 0 <= i < cs.len() && cs[i].id == cid
}

pub open spec fn cidx(cs: Seq<Category>, cid: u64) -> int {
    choose|i: int| 0 <= i < cs.len() && cs[i].id == cid
}

/// In a table with unique ids, the row holding `cs[i].id` is row `i`.
pub proof fn lemma_cidx_of(cs: Seq<Category>, i: int)
    requires
        unique_category_ids(cs),
        0 <= i < cs.len(),
    ensures
        has_category(cs, cs[i].id),
        cidx(cs, cs[i].id) == i,
{
    let cid = cs[i].id;
    assert(has_category(cs, cid));
    let j = cidx(cs, cid);
    if j != i {
        if j < i {
            assert(cs[j].id != cs[i].id);
        } else {
            assert(cs[i].id != cs[j].id);
        }
    }
}

/// The cart holds a line for this user and product.
pub open spec fn has_cart_line(cart: Seq<CartItem>, uid: u64, pid: u64) -> bool {
    exists|i: int| 0 <= i < cart.len() && cart[i].user_id == uid && cart[i].product_id == pid
}

pub open spec fn cart_line_idx(cart: Seq<CartItem>, uid: u64, pid: u64) -> int {
    choose|i: int| 0 <= i < cart.len() && cart[i].user_id == uid && cart[i].product_id == pid
}

/// With pairwise distinct (user, product) pairs, the line holding the pair
/// of row `i` is row `i`.
pub proof fn lemma_cart_line_idx_of(cart: Seq<CartItem>, i: int)
    requires
        forall|a: int, b: int|
            0 <= a < b < cart.len() ==> !(cart[a].user_id == cart[b].user_id && cart[a].product_id
                == cart[b].product_id),
        0 <= i < cart.len(),
    ensures
        has_cart_line(cart, cart[i].user_id, cart[i].product_id),
        cart_line_idx(cart, cart[i].user_id, cart[i].product_id) == i,
{
    let uid = cart[i].user_id;
    let pid = cart[i].product_id;
    assert(has_cart_line(cart, uid, pid));
    let j = cart_line_idx(cart, uid, pid);
    if j != i {
        if j < i {
            assert(!(cart[j].user_id == cart[i].user_id && cart[j].product_id == cart[
            i].product_id));
        } else {
            assert(!(cart[i].user_id == cart[j].user_id && cart[i].product_id == cart[
            j].product_id));
        }
    }
}

// ---------------------------------------------------------------------------
// Sums over order lines.
// ---------------------------------------------------------------------------

/// Sum of `price * quantity` over a run of order lines, in exact integer
/// arithmetic.
pub open spec fn items_total(items: Seq<OrderItem>) -> int
    decreases items.len(),
{
    if items.len() == 0 {
        0
    } else {
        items_total(items.drop_last()) + items.last().price * items.last().quantity
    }
}

/// Total quantity the lines of one order hold of one product.
pub open spec fn qty_in_items(items: Seq<OrderItem>, pid: u64) -> int
    decreases items.len(),
{
    if items.len() == 0 {
        0
    } else {
        qty_in_items(items.drop_last(), pid) + if items.last().product_id == pid {
            items.last().quantity as int
        } else {
            0
        }
    }
}

pub proof fn lemma_items_total_nonneg(items: Seq<OrderItem>)
    ensures
        items_total(items) >= 0,
    decreases items.len(),
{
    if items.len() > 0 {
        lemma_items_total_nonneg(items.drop_last());
    }
}

pub proof fn lemma_items_total_take_step(items: Seq<OrderItem>, k: int)
    requires
        0 <= k < items.len(),
    ensures
        items_total(items.take(k + 1)) == items_total(items.take(k)) + items[k].price * items[
            k
        ].quantity,
{
    let t = items.take(k + 1);
    assert(t.drop_last() =~= items.take(k));
    assert(t.last() == items[k]);
    assert(items_total(t) == items_total(t.drop_last()) + t.last().price * t.last().quantity);
}

/// A prefix of the lines never sums above the whole: the running total of a
/// checkout stays within the final total.
pub proof fn lemma_items_total_take_le(items: Seq<OrderItem>, k: int)
    requires
        0 <= k <= items.len(),
    ensures
        items_total(items.take(k)) <= items_total(items),
    decreases items.len() - k,
{
    if k == items.len() {
        assert(items.take(k) =~= items);
    } else {
        lemma_items_total_take_step(items, k);
        lemma_items_total_take_le(items, k + 1);
    }
}

pub proof fn lemma_qty_nonneg(items: Seq<OrderItem>, pid: u64)
    ensures
        qty_in_items(items, pid) >= 0,
    decreases items.len(),
{
    if items.len() > 0 {
        lemma_qty_nonneg(items.drop_last(), pid);
    }
}

pub proof fn lemma_qty_take_step(items: Seq<OrderItem>, k: int, pid: u64)
    requires
        0 <= k < items.len(),
    ensures
        qty_in_items(items.take(k + 1), pid) == qty_in_items(items.take(k), pid) + if items[
            k
        ].product_id == pid {
            items[k].quantity as int
        } else {
            0
        },
{
    let t = items.take(k + 1);
    assert(t.drop_last() =~= items.take(k));
    assert(t.last() == items[k]);
    assert(qty_in_items(t, pid) == qty_in_items(t.drop_last(), pid) + if t.last().product_id == pid {
        t.last().quantity as int
    } else {
        0
    });
}

/// A product named by no line receives nothing.
pub proof fn lemma_qty_zero(items: Seq<OrderItem>, pid: u64)
    requires
        forall|j: int| 0 <= j < items.len() ==> (#[trigger] items[j]).product_id != pid,
    ensures
        qty_in_items(items, pid) == 0,
    decreases items.len(),
{
    if items.len() > 0 {
        assert(forall|j: int|
            0 <= j < items.drop_last().len() ==> #[trigger] items.drop_last()[j] == items[j]);
        lemma_qty_zero(items.drop_last(), pid);
    }
}

/// With pairwise distinct products among the lines, the quantity an order
/// holds of line `k`'s product is exactly that line's quantity.
pub proof fn lemma_qty_single(items: Seq<OrderItem>, k: int)
    requires
        forall|a: int, b: int|
            0 <= a < b < items.len() ==> items[a].product_id != items[b].product_id,
        0 <= k < items.len(),
    ensures
        qty_in_items(items, items[k].product_id) == items[k].quantity,
    decreases items.len(),
{
    let pid = items[k].product_id;
    assert(forall|j: int|
        0 <= j < items.drop_last().len() ==> #[trigger] items.drop_last()[j] == items[j]);
    if k == items.len() - 1 {
        lemma_qty_zero(items.drop_last(), pid);
    } else {
        lemma_qty_single(items.drop_last(), k);
    }
}

/// Two product tables with the same ids row by row answer every id lookup at
/// the same row.
pub proof fn lemma_same_ids_lookup(ps1: Seq<Product>, ps2: Seq<Product>)
    requires
        unique_product_ids(ps1),
        ps1.len() == ps2.len(),
        forall|i: int| 0 <= i < ps1.len() ==> ps1[i].id == #[trigger] ps2[i].id,
    ensures
        unique_product_ids(ps2),
        forall|pid: u64| #[trigger] has_product(ps2, pid) <==> has_product(ps1, pid),
        forall|pid: u64| has_product(ps1, pid) ==> #[trigger] pidx(ps2, pid) == pidx(ps1, pid),
{
    assert forall|pid: u64| has_product(ps1, pid) implies has_product(ps2, pid) by {
        let k = pidx(ps1, pid);
        assert(ps2[k].id == pid);
    }
    assert forall|pid: u64| has_product(ps2, pid) implies has_product(ps1, pid) by {
        let k = pidx(ps2, pid);
        assert(ps1[k].id == pid);
    }
    assert forall|pid: u64| has_product(ps1, pid) implies pidx(ps2, pid) == pidx(ps1, pid) by {
        let k = pidx(ps1, pid);
        assert(ps2[k].id == pid);
        lemma_pidx_of(ps2, k);
    }
}

// ---------------------------------------------------------------------------
// Well-formedness.
// ---------------------------------------------------------------------------

/// The effective selling price: the sale price where one is set, else the
/// list price.
pub open spec fn spec_effective_price(p: Product) -> u64 {
    match p.sale_price {
        Some(sp) => sp,
        None => p.price,
    }
}

impl Store {
    /// What must hold of an order row for the store to be well formed:
    /// its owner and every line's product exist, lines are non-empty with
    /// positive quantities and pairwise distinct products, and the amount
    /// and points columns agree with the lines.
    pub open spec fn order_wf(self, o: Order) -> bool {
        &&& has_user(self.users@, o.user_id)
        &&& o.items@.len() > 0
        &&& forall|k: int|
            0 <= k < o.items@.len() ==> (#[trigger] o.items@[k]).quantity >= 1 && has_product(
                self.products@,
                o.items@[k].product_id,
            )
        &&& forall|a: int, b: int|
            0 <= a < b < o.items@.len() ==> o.items@[a].product_id != o.items@[b].product_id
        &&& o.total_amount == items_total(o.items@)
        &&& o.final_amount == o.total_amount
        &&& o.points_earned == o.final_amount as int / 1000
    }

    /// The invariant of the whole store: unique ids in every table, fresh ids
    /// below `next_id`, well-formed orders, and cart lines that are positive,
    /// refer to existing rows, and never repeat a (user, product) pair.
    pub open spec fn wf(self) -> bool {
        &&& unique_product_ids(self.products@)
        &&& unique_user_ids(self.users@)
        &&& unique_order_ids(self.orders@)
        &&& unique_category_ids(self.categories@)
        &&& forall|i: int|
            0 <= i < self.orders@.len() ==> (#[trigger] self.orders@[i]).id < self.next_id
        &&& forall|i: int|
            0 <= i < self.categories@.len() ==> (#[trigger] self.categories@[i]).id < self.next_id
        &&& forall|i: int|
            0 <= i < self.products@.len() ==> (#[trigger] self.products@[i]).id < self.next_id
        &&& forall|i: int|
            0 <= i < self.users@.len() ==> (#[trigger] self.users@[i]).id < self.next_id
        &&& forall|i: int| 0 <= i < self.orders@.len() ==> self.order_wf(#[trigger] self.orders@[i])
        &&& forall|i: int|
            0 <= i < self.cart@.len() ==> (#[trigger] self.cart@[i]).quantity >= 1 && has_product(
                self.products@,
                self.cart@[i].product_id,
            ) && has_user(self.users@, self.cart@[i].user_id)
        &&& forall|a: int, b: int|
            0 <= a < b < self.cart@.len() ==> !(self.cart@[a].user_id == self.cart@[b].user_id
                && self.cart@[a].product_id == self.cart@[b].product_id)
    }

    /// An empty store is well formed.
    pub fn new() -> (s: Store)
        ensures
            s.wf(),
            s.products@.len() == 0,
            s.users@.len() == 0,
            s.orders@.len() == 0,
            s.cart@.len() == 0,
            s.categories@.len() == 0,
    {
        Store {
            products: Vec::new(),
            users: Vec::new(),
            orders: Vec::new(),
            cart: Vec::new(),
            categories: Vec::new(),
            next_id: 0,
        }
    }

    /// Index of the product row with id `pid`, if the table holds one.
    pub fn find_product(&self, pid: u64) -> (r: Option<usize>)
        ensures
            match r {
                Some(i) => i < self.products@.len() && self.products@[i as int].id == pid,
                None => !has_product(self.products@, pid),
            },
    {
        let n = self.products.len();
        let mut i: usize = 0;
        while i < n
            invariant
                i <= n,
                n == self.products@.len(),
                forall|j: int| 0 <= j < i ==> (#[trigger] self.products@[j]).id != pid,
            decreases n - i,
        {
            if self.products[i].id == pid {
                return Some(i);
            }
            i += 1;
        }
        None
    }

    /// Index of the user row with id `uid`, if the table holds one.
    pub fn find_user(&self, uid: u64) -> (r: Option<usize>)
        ensures
            match r {
                Some(i) => i < self.users@.len() && self.users@[i as int].id == uid,
                None => !has_user(self.users@, uid),
            },
    {
        let n = self.users.len();
        let mut i: usize = 0;
        while i < n
            invariant
                i <= n,
                n == self.users@.len(),
                forall|j: int| 0 <= j < i ==> (#[trigger] self.users@[j]).id != uid,
            decreases n - i,
        {
            if self.users[i].id == uid {
                return Some(i);
            }
            i += 1;
        }
        None
    }

    /// Index of the order row with id `oid`, if the table holds one.
    pub fn find_order(&self, oid: u64) -> (r: Option<usize>)
        ensures
            match r {
                Some(i) => i < self.orders@.len() && self.orders@[i as int].id == oid,
                None => !has_order(self.orders@, oid),
            },
    {
        let n = self.orders.len();
        let mut i: usize = 0;
        while i < n
            invariant
                i <= n,
                n == self.orders@.len(),
                forall|j: int| 0 <= j < i ==> (#[trigger] self.orders@[j]).id != oid,
            decreases n - i,
        {
            if self.orders[i].id == oid {
                return Some(i);
            }
            i += 1;
        }
        None
    }
}

// ---------------------------------------------------------------------------
// Ledger primitives.
//
// Stock and points are only ever written as a delta against the value the
// same atomic unit read, mirroring a relative UPDATE on the locked row.
// ---------------------------------------------------------------------------

/// The same product row with its stock replaced.
pub open spec fn with_stock(p: Product, stock: i64) -> Product {
    Product { stock, ..p }
}

/// The same user row with its points balance replaced.
pub open spec fn with_points(u: UserAccount, points: u64) -> UserAccount {
    UserAccount { points, ..u }
}

/// The same order row with its status replaced.
pub open spec fn with_status(o: Order, status: OrderStatus) -> Order {
    Order { status, ..o }
}

/// A loyalty debit floored at zero: the balance never goes negative.
pub open spec fn points_after_debit(points: int, n: int) -> int {
    if points >= n {
        points - n
    } else {
        0
    }
}

/// The product table after one signed stock delta on the row with id `pid`.
pub open spec fn stocks_with_delta(ps: Seq<Product>, pid: u64, delta: int) -> Seq<Product> {
    ps.update(pidx(ps, pid), with_stock(product_of(ps, pid), (stock_of(ps, pid) + delta) as i64))
}

/// What one stock delta does to the table: the touched row moves by exactly
/// the delta, and every other row, and every column but stock, is untouched.
pub proof fn lemma_stocks_with_delta(ps: Seq<Product>, pid: u64, delta: int)
    requires
        unique_product_ids(ps),
        has_product(ps, pid),
        i64::MIN <= stock_of(ps, pid) + delta <= i64::MAX,
    ensures
        stocks_with_delta(ps, pid, delta).len() == ps.len(),
        unique_product_ids(stocks_with_delta(ps, pid, delta)),
        forall|i: int|
            0 <= i < ps.len() ==> #[trigger] stocks_with_delta(ps, pid, delta)[i].id == ps[i].id,
        forall|q: u64|
            has_product(ps, q) <==> #[trigger] has_product(stocks_with_delta(ps, pid, delta), q),
        stock_of(stocks_with_delta(ps, pid, delta), pid) == stock_of(ps, pid) + delta,
        forall|q: u64|
            has_product(ps, q) && q != pid ==> #[trigger] product_of(
                stocks_with_delta(ps, pid, delta),
                q,
            ) == product_of(ps, q),
        product_of(stocks_with_delta(ps, pid, delta), pid) == with_stock(
            product_of(ps, pid),
            (stock_of(ps, pid) + delta) as i64,
        ),
{
    let i = pidx(ps, pid);
    assert(0 <= i < ps.len() && ps[i].id == pid);
    let rs = stocks_with_delta(ps, pid, delta);
    assert forall|a: int, b: int| 0 <= a < b < rs.len() implies rs[a].id != rs[b].id by {
        assert(ps[a].id != ps[b].id);
    }
    assert forall|q: u64| has_product(ps, q) implies has_product(rs, q) by {
        let k = pidx(ps, q);
        assert(rs[k].id == q);
    }
    assert forall|q: u64| has_product(rs, q) implies has_product(ps, q) by {
        let k = pidx(rs, q);
        assert(ps[k].id == q);
    }
    assert forall|q: u64| has_product(ps, q) implies pidx(rs, q) == pidx(ps, q) by {
        let k = pidx(ps, q);
        assert(rs[k].id == q);
        lemma_pidx_of(rs, k);
    }
    lemma_pidx_of(ps, i);
}

/// No lost update: two stock deltas land the same wherever the serialization
/// order put them, and every touched row ends at its old stock plus the sum
/// of the deltas that named it. This is the consistency a pair of committed
/// transactions owes the inventory, whichever of them won the row lock.
pub proof fn lemma_stock_deltas_commute(ps: Seq<Product>, p1: u64, d1: int, p2: u64, d2: int)
    requires
        unique_product_ids(ps),
        has_product(ps, p1),
        has_product(ps, p2),
        i64::MIN <= stock_of(ps, p1) + d1 <= i64::MAX,
        i64::MIN <= stock_of(ps, p2) + d2 <= i64::MAX,
        p1 == p2 ==> i64::MIN <= stock_of(ps, p1) + d1 + d2 <= i64::MAX,
    ensures
        stocks_with_delta(stocks_with_delta(ps, p1, d1), p2, d2) == stocks_with_delta(
            stocks_with_delta(ps, p2, d2),
            p1,
            d1,
        ),
        stock_of(stocks_with_delta(stocks_with_delta(ps, p1, d1), p2, d2), p1) == stock_of(ps, p1)
            + d1 + if p2 == p1 {
            d2
        } else {
            0
        },
        stock_of(stocks_with_delta(stocks_with_delta(ps, p1, d1), p2, d2), p2) == stock_of(ps, p2)
            + d2 + if p1 == p2 {
            d1
        } else {
            0
        },
        forall|q: u64|
            has_product(ps, q) && q != p1 && q != p2 ==> #[trigger] stock_of(
                stocks_with_delta(stocks_with_delta(ps, p1, d1), p2, d2),
                q,
            ) == stock_of(ps, q),
{
    lemma_stocks_with_delta(ps, p1, d1);
    let a1 = stocks_with_delta(ps, p1, d1);
    lemma_stocks_with_delta(a1, p2, d2);
    let a12 = stocks_with_delta(a1, p2, d2);
    lemma_stocks_with_delta(ps, p2, d2);
    let a2 = stocks_with_delta(ps, p2, d2);
    lemma_stocks_with_delta(a2, p1, d1);
    let a21 = stocks_with_delta(a2, p1, d1);
    if p1 == p2 {
        assert(a12 =~= a21);
    } else {
        assert forall|i: int| 0 <= i < ps.len() implies a12[i] == a21[i] by {
            lemma_pidx_of(ps, i);
            let q = ps[i].id;
            if q == p1 {
                assert(a12[i] == product_of(a12, q));
                assert(a21[i] == product_of(a21, q));
            } else if q == p2 {
                assert(a12[i] == product_of(a12, q));
                assert(a21[i] == product_of(a21, q));
            } else {
                assert(a12[i] == product_of(a12, q));
                assert(a21[i] == product_of(a21, q));
            }
        }
        assert(a12 =~= a21);
    }
}

impl Store {
    /// Apply one signed delta to the stock of the product row at index `i`.
    pub(crate) fn add_stock_at(&mut self, i: usize, delta: i64)
        requires
            i < old(self).products@.len(),
            i64::MIN <= old(self).products@[i as int].stock + delta <= i64::MAX,
        ensures
            final(self).products@ == old(self).products@.update(
                i as int,
                with_stock(
                    old(self).products@[i as int],
                    (old(self).products@[i as int].stock + delta) as i64,
                ),
            ),
            final(self).users == old(self).users,
            final(self).orders == old(self).orders,
            final(self).cart == old(self).cart,
            final(self).categories == old(self).categories,
            final(self).next_id == old(self).next_id,
    {
        let s = self.products[i].stock;
        self.products[i].stock = s + delta;
    }

    /// Write a new points balance on the user row at index `i`.
    pub(crate) fn set_points_at(&mut self, i: usize, points: u64)
        requires
            i < old(self).users@.len(),
        ensures
            final(self).users@ == old(self).users@.update(
                i as int,
                with_points(old(self).users@[i as int], points),
            ),
            final(self).products == old(self).products,
            final(self).orders == old(self).orders,
            final(self).cart == old(self).cart,
            final(self).categories == old(self).categories,
            final(self).next_id == old(self).next_id,
    {
        self.users[i].points = points;
    }

    /// Write a new status on the order row at index `i`.
    pub(crate) fn set_status_at(&mut self, i: usize, status: OrderStatus)
        requires
            i < old(self).orders@.len(),
        ensures
            final(self).orders@ == old(self).orders@.update(
                i as int,
                with_status(old(self).orders@[i as int], status),
            ),
            final(self).products == old(self).products,
            final(self).users == old(self).users,
            final(self).cart == old(self).cart,
            final(self).categories == old(self).categories,
            final(self).next_id == old(self).next_id,
    {
        self.orders[i].status = status;
    }
    /// Index of the category row with id `cid`, if the table holds one.
    pub fn find_category(&self, cid: u64) -> (r: Option<usize>)
        ensures
            match r {
                Some(i) => i < self.categories@.len() && self.categories@[i as int].id == cid,
                None => !has_category(self.categories@, cid),
            },
    {
        let n = self.categories.len();
        let mut i: usize = 0;
        while i < n
            invariant
                i <= n,
                n == self.categories@.len(),
                forall|j: int| 0 <= j < i ==> (#[trigger] self.categories@[j]).id != cid,
            decreases n - i,
        {
            if self.categories[i].id == cid {
                return Some(i);
            }
            i += 1;
        }
        None
    }

    /// Index of this user's cart line for this product, if one exists.
    fn find_cart_line(&self, uid: u64, pid: u64) -> (r: Option<usize>)
        ensures
            match r {
                Some(i) => i < self.cart@.len() && self.cart@[i as int].user_id == uid
                    && self.cart@[i as int].product_id == pid,
                None => !has_cart_line(self.cart@, uid, pid),
            },
    {
        let n = self.cart.len();
        let mut i: usize = 0;
        while i < n
            invariant
                i <= n,
                n == self.cart@.len(),
                forall|j: int|
                    0 <= j < i ==> !((#[trigger] self.cart@[j]).user_id == uid
                        && self.cart@[j].product_id == pid),
            decreases n - i,
        {
            if self.cart[i].user_id == uid && self.cart[i].product_id == pid {
                return Some(i);
            }
            i += 1;
        }
        None
    }

    /// Add a user row with a fresh id and an empty points balance.
    pub fn add_user(&mut self, email: String, is_admin: bool) -> (r: Result<u64, OrderError>)
        requires
            old(self).wf(),
        ensures
            final(self).wf(),
            r is Ok <==> old(self).next_id < u64::MAX,
            match r {
                Ok(uid) => {
                    &&& uid == old(self).next_id
                    &&& final(self).users@ == old(self).users@.push(
                        (UserAccount { id: uid, email, points: 0, is_admin }),
                    )
                    &&& final(self).next_id == old(self).next_id + 1
                    &&& final(self).products == old(self).products
                    &&& final(self).orders == old(self).orders
                    &&& final(self).cart == old(self).cart
                    &&& final(self).categories == old(self).categories
                },
                Err(e) => e == OrderError::StorageFailure && *final(self) == *old(self),
            },
    {
        let ghost pre = *self;
        if self.next_id == u64::MAX {
            return Err(OrderError::StorageFailure);
        }
        let uid = self.next_id;
        self.users.push(UserAccount { id: uid, email, points: 0, is_admin });
        self.next_id = self.next_id + 1;
        proof {
            assert forall|k: u64| has_user(pre.users@, k) implies has_user(self.users@, k) by {
                let i = uidx(pre.users@, k);
                assert(self.users@[i].id == k);
            }
            assert forall|i: int| 0 <= i < self.orders@.len() implies self.order_wf(
                #[trigger] self.orders@[i],
            ) by {
                assert(pre.order_wf(pre.orders@[i]));
            }
        }
        Ok(uid)
    }

    /// Put a line for this product into this user's cart, replacing the
    /// quantity of an existing line for the same product. A zero quantity
    /// is refused.
    pub fn add_to_cart(&mut self, user_id: u64, product_id: u64, quantity: u32) -> (r: Result<
        (),
        OrderError,
    >)
        requires
            old(self).wf(),
        ensures
            final(self).wf(),
            r is Ok <==> has_user(old(self).users@, user_id) && has_product(
                old(self).products@,
                product_id,
            ) && quantity >= 1,
            match r {
                Ok(_) => {
                    &&& final(self).cart@ == if has_cart_line(
                        old(self).cart@,
                        user_id,
                        product_id,
                    ) {
                        old(self).cart@.update(
                            cart_line_idx(old(self).cart@, user_id, product_id),
                            (CartItem { user_id, product_id, quantity }),
                        )
                    } else {
                        old(self).cart@.push((CartItem { user_id, product_id, quantity }))
                    }
                    &&& final(self).products == old(self).products
                    &&& final(self).users == old(self).users
                    &&& final(self).orders == old(self).orders
                    &&& final(self).categories == old(self).categories
                    &&& final(self).next_id == old(self).next_id
                },
                Err(e) => {
                    &&& *final(self) == *old(self)
                    &&& (e == OrderError::NotFound <==> !has_user(old(self).users@, user_id)
                        || !has_product(old(self).products@, product_id))
                    &&& (e == OrderError::InvalidTransition <==> has_user(
                        old(self).users@,
                        user_id,
                    ) && has_product(old(self).products@, product_id) && quantity == 0)
                },
            },
    {
        let ghost pre = *self;
        match self.find_user(user_id) {
            Some(_) => (),
            None => {
                return Err(OrderError::NotFound);
            },
        }
        match self.find_product(product_id) {
            Some(_) => (),
            None => {
                return Err(OrderError::NotFound);
            },
        }
        if quantity == 0 {
            return Err(OrderError::InvalidTransition);
        }
        match self.find_cart_line(user_id, product_id) {
            Some(i) => {
                proof {
                    lemma_cart_line_idx_of(pre.cart@, i as int);
                }
                self.cart[i].quantity = quantity;
                proof {
                    assert(self.cart@[i as int] == (CartItem { user_id, product_id, quantity }));
                }
            },
            None => {
                self.cart.push(CartItem { user_id, product_id, quantity });
            },
        }
        Ok(())
    }
}

/// Executable form of `spec_effective_price`.
pub fn effective_price(p: &Product) -> (r: u64)
    ensures
        r == spec_effective_price(*p),
{
    match p.sale_price {
        Some(sp) => sp,
        None => p.price,
    }
}

} // verus!
