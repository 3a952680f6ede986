//! Checkout: materialize the user's cart into an order with captured
//! prices, debit the inventory, and clear the cart, as one atomic unit.

use vstd::pervasive::unreached;
use vstd::prelude::*;
use vstd::string::StringExecFns;

use crate::errors::OrderError;
use crate::lifecycle::{cod_method, stock_debit_fits, stocks_debited_by};
use crate::status::OrderStatus;
use crate::store::{
    has_product, has_user, items_total, lemma_items_total_nonneg, lemma_items_total_take_le,
    lemma_items_total_take_step, lemma_pidx_of, lemma_qty_nonneg, lemma_qty_take_step,
    lemma_qty_zero, lemma_same_ids_lookup, product_of, qty_in_items, spec_effective_price,
    stock_of, unique_order_ids, unique_product_ids, CartItem, Order, OrderItem, Product,
    ShippingInfo, Store,
};

verus! {

// ---------------------------------------------------------------------------
// The cart snapshot.
// ---------------------------------------------------------------------------

/// One cart line materialized into an order line: the quantity as carted,
/// and the price captured from the product at this very moment — the sale
/// price where one is set, else the list price.
pub open spec fn snapshot_line(ps: Seq<Product>, c: CartItem) -> OrderItem {
    OrderItem {
        product_id: c.product_id,
        quantity: c.quantity,
        price: spec_effective_price(product_of(ps, c.product_id)),
    }
}

/// The user's cart lines, in cart order, materialized against the product
/// table.
pub open spec fn snapshot(ps: Seq<Product>, cart: Seq<CartItem>, uid: u64) -> Seq<OrderItem>
    decreases cart.len(),
{
    if cart.len() == 0 {
        Seq::empty()
    } else {
        let rest = snapshot(ps, cart.drop_last(), uid);
        if cart.last().user_id == uid {
            rest.push(snapshot_line(ps, cart.last()))
        } else {
            rest
        }
    }
}

/// The cart table with every line of this user consumed.
pub open spec fn cart_kept(cart: Seq<CartItem>, uid: u64) -> Seq<CartItem>
    decreases cart.len(),
{
    if cart.len() == 0 {
        Seq::empty()
    } else {
        let rest = cart_kept(cart.drop_last(), uid);
        if cart.last().user_id == uid {
            rest
        } else {
            rest.push(cart.last())
        }
    }
}

/// Each snapshot line comes from a cart line of this user.
pub proof fn lemma_snapshot_member(ps: Seq<Product>, cart: Seq<CartItem>, uid: u64, k: int)
    requires
        0 <= k < snapshot(ps, cart, uid).len(),
    ensures
        exists|j: int|
            0 <= j < cart.len() && (#[trigger] cart[j]).user_id == uid && snapshot(ps, cart, uid)[k]
                == snapshot_line(ps, cart[j]),
    decreases cart.len(),
{
    assert(cart.len() > 0);
    let front = cart.drop_last();
    assert(forall|j: int| 0 <= j < front.len() ==> #[trigger] front[j] == cart[j]);
    if k < snapshot(ps, front, uid).len() {
        lemma_snapshot_member(ps, front, uid, k);
        let j = choose|j: int|
            0 <= j < front.len() && (#[trigger] front[j]).user_id == uid && snapshot(
                ps,
                front,
                uid,
            )[k] == snapshot_line(ps, front[j]);
        assert(snapshot(ps, cart, uid)[k] == snapshot(ps, front, uid)[k]);
        assert(0 <= j < cart.len() && cart[j].user_id == uid && snapshot(ps, cart, uid)[k]
            == snapshot_line(ps, cart[j]));
    } else {
        assert(cart.last().user_id == uid);
        let j = cart.len() - 1;
        assert(0 <= j < cart.len() && cart[j].user_id == uid && snapshot(ps, cart, uid)[k]
            == snapshot_line(ps, cart[j]));
    }
}

/// With no (user, product) pair carted twice, the snapshot lines name
/// pairwise distinct products.
pub proof fn lemma_snapshot_distinct(ps: Seq<Product>, cart: Seq<CartItem>, uid: u64)
    requires
        forall|a: int, b: int|
            0 <= a < b < cart.len() ==> !(cart[a].user_id == cart[b].user_id && cart[a].product_id
                == cart[b].product_id),
    ensures
        forall|a: int, b: int|
            0 <= a < b < snapshot(ps, cart, uid).len() ==> snapshot(ps, cart, uid)[a].product_id
                != snapshot(ps, cart, uid)[b].product_id,
    decreases cart.len(),
{
    if cart.len() > 0 {
        let front = cart.drop_last();
        assert(forall|j: int| 0 <= j < front.len() ==> #[trigger] front[j] == cart[j]);
        lemma_snapshot_distinct(ps, front, uid);
        assert forall|a: int, b: int| 0 <= a < b < snapshot(ps, cart, uid).len() implies snapshot(
            ps,
            cart,
            uid,
        )[a].product_id != snapshot(ps, cart, uid)[b].product_id by {
            assert(snapshot(ps, cart, uid)[a] == snapshot(ps, front, uid)[a]);
            if b < snapshot(ps, front, uid).len() {
                assert(snapshot(ps, cart, uid)[b] == snapshot(ps, front, uid)[b]);
            } else {
                // `b` is the line just appended for the cart's last entry;
                // its product differs from every earlier line of this user.
                assert(cart.last().user_id == uid);
                assert(snapshot(ps, cart, uid)[b] == snapshot_line(ps, cart.last()));
                lemma_snapshot_member(ps, front, uid, a);
                let j = choose|j: int|
                    0 <= j < front.len() && (#[trigger] front[j]).user_id == uid && snapshot(
                        ps,
                        front,
                        uid,
                    )[a] == snapshot_line(ps, front[j]);
                assert(!(cart[j].user_id == cart.last().user_id && cart[j].product_id
                    == cart.last().product_id));
            }
        }
    }
}

/// The snapshot is empty exactly when no cart line belongs to the user.
pub proof fn lemma_snapshot_empty(ps: Seq<Product>, cart: Seq<CartItem>, uid: u64)
    ensures
        snapshot(ps, cart, uid).len() == 0 <==> forall|j: int|
            0 <= j < cart.len() ==> (#[trigger] cart[j]).user_id != uid,
    decreases cart.len(),
{
    if cart.len() > 0 {
        let front = cart.drop_last();
        assert(forall|j: int| 0 <= j < front.len() ==> #[trigger] front[j] == cart[j]);
        lemma_snapshot_empty(ps, front, uid);
        let snap = snapshot(ps, cart, uid);
        let fsnap = snapshot(ps, front, uid);
        if cart.last().user_id == uid {
            // A line of the user exists, and so does a snapshot line.
            assert(snap.len() > 0);
            assert((cart[cart.len() - 1]).user_id == uid);
        } else if fsnap.len() == 0 {
            assert forall|j: int| 0 <= j < cart.len() implies (#[trigger] cart[j]).user_id
                != uid by {
                if j < cart.len() - 1 {
                    assert(front[j].user_id != uid);
                }
            }
        } else {
            // Some earlier line belongs to the user.
            assert(exists|j: int| 0 <= j < front.len() && (#[trigger] front[j]).user_id == uid);
            let j = choose|j: int| 0 <= j < front.len() && (#[trigger] front[j]).user_id == uid;
            assert((cart[j]).user_id == uid);
        }
    }
}

/// Each kept cart line belongs to another user and was a line of the old
/// cart.
pub proof fn lemma_cart_kept_member(cart: Seq<CartItem>, uid: u64, k: int)
    requires
        0 <= k < cart_kept(cart, uid).len(),
    ensures
        cart_kept(cart, uid)[k].user_id != uid,
        exists|j: int| 0 <= j < cart.len() && #[trigger] cart[j] == cart_kept(cart, uid)[k],
    decreases cart.len(),
{
    assert(cart.len() > 0);
    let front = cart.drop_last();
    assert(forall|j: int| 0 <= j < front.len() ==> #[trigger] front[j] == cart[j]);
    if k < cart_kept(front, uid).len() {
        lemma_cart_kept_member(front, uid, k);
        let j = choose|j: int| 0 <= j < front.len() && #[trigger] front[j] == cart_kept(
            front,
            uid,
        )[k];
        assert(cart_kept(cart, uid)[k] == cart_kept(front, uid)[k]);
        assert(0 <= j < cart.len() && cart[j] == cart_kept(cart, uid)[k]);
    } else {
        assert(cart.last().user_id != uid);
        let j = cart.len() - 1;
        assert(0 <= j < cart.len() && cart[j] == cart_kept(cart, uid)[k]);
    }
}

/// Consuming one user's lines keeps the remaining (user, product) pairs
/// pairwise distinct.
pub proof fn lemma_cart_kept_distinct(cart: Seq<CartItem>, uid: u64)
    requires
        forall|a: int, b: int|
            0 <= a < b < cart.len() ==> !(cart[a].user_id == cart[b].user_id && cart[a].product_id
                == cart[b].product_id),
    ensures
        forall|a: int, b: int|
            0 <= a < b < cart_kept(cart, uid).len() ==> !(cart_kept(cart, uid)[a].user_id
                == cart_kept(cart, uid)[b].user_id && cart_kept(cart, uid)[a].product_id
                == cart_kept(cart, uid)[b].product_id),
    decreases cart.len(),
{
    if cart.len() > 0 {
        let front = cart.drop_last();
        assert(forall|j: int| 0 <= j < front.len() ==> #[trigger] front[j] == cart[j]);
        lemma_cart_kept_distinct(front, uid);
        assert forall|a: int, b: int| 0 <= a < b < cart_kept(cart, uid).len() implies !(cart_kept(
            cart,
            uid,
        )[a].user_id == cart_kept(cart, uid)[b].user_id && cart_kept(cart, uid)[a].product_id
            == cart_kept(cart, uid)[b].product_id) by {
            assert(cart_kept(cart, uid)[a] == cart_kept(front, uid)[a]);
            if b < cart_kept(front, uid).len() {
                assert(cart_kept(cart, uid)[b] == cart_kept(front, uid)[b]);
            } else {
                // `b` is the cart's kept last entry; its pair differs from
                // every earlier kept line.
                assert(cart.last().user_id != uid);
                assert(cart_kept(cart, uid)[b] == cart.last());
                lemma_cart_kept_member(front, uid, a);
                let j = choose|j: int| 0 <= j < front.len() && #[trigger] front[j] == cart_kept(
                    front,
                    uid,
                )[a];
                assert(!(cart[j].user_id == cart.last().user_id && cart[j].product_id
                    == cart.last().product_id));
            }
        }
    }
}

// ---------------------------------------------------------------------------
// The checkout contract.
// ---------------------------------------------------------------------------

/// The payment method recorded on the order: the one given, or cash on
/// delivery by default.
pub open spec fn pm_view(pm: Option<String>) -> Seq<char> {
    match pm {
        Some(s) => s@,
        None => cod_method(),
    }
}

/// Every column written by checkout stays in range: the exact total fits
/// the amount column, every stock debit fits its row, and a fresh id
/// remains.
pub open spec fn checkout_fits(s: Store, uid: u64) -> bool {
    let snap = snapshot(s.products@, s.cart@, uid);
    &&& items_total(snap) <= u64::MAX
    &&& stock_debit_fits(s.products@, snap)
    &&& s.next_id < u64::MAX
}

/// The complete meaning of one committed checkout: one new `Pending` order
/// holding the snapshot with its exact total and points, every line's
/// quantity debited from stock, the user's cart consumed, and nothing else
/// touched.
pub open spec fn checkout_applied(
    pre: Store,
    post: Store,
    uid: u64,
    shipping: ShippingInfo,
    pm: Option<String>,
    now: i64,
    oid: u64,
) -> bool {
    let snap = snapshot(pre.products@, pre.cart@, uid);
    let total = items_total(snap);
    let o = post.orders@.last();
    &&& oid == pre.next_id
    &&& post.next_id == pre.next_id + 1
    &&& post.orders@ == pre.orders@.push(o)
    &&& o.id == oid
    &&& o.user_id == uid
    &&& o.items@ == snap
    &&& o.total_amount == total
    &&& o.final_amount == total
    &&& o.points_earned == total / 1000
    &&& o.status is Pending
    &&& o.payment_method@ == pm_view(pm)
    &&& o.shipping == shipping
    &&& o.created_at == now
    &&& stocks_debited_by(pre.products@, post.products@, snap)
    &&& post.cart@ == cart_kept(pre.cart@, uid)
    &&& post.users@ == pre.users@
    &&& post.categories@ == pre.categories@
}

impl Store {
    /// Materialize the user's cart against the product table.
    fn build_snapshot(&self, uid: u64) -> (items: Vec<OrderItem>)
        requires
            self.wf(),
        ensures
            items@ == snapshot(self.products@, self.cart@, uid),
    {
        let n = self.cart.len();
        let mut items: Vec<OrderItem> = Vec::new();
        let mut i: usize = 0;
        while i < n
            invariant
                i <= n,
                items@ == snapshot(self.products@, self.cart@.take(i as int), uid),
            decreases n - i,
        {
            let c_uid = self.cart[i].user_id;
            let pid = self.cart[i].product_id;
            let qty = self.cart[i].quantity;
            if c_uid == uid {
                let pi = match self.find_product(pid) {
                    Some(pi) => pi,
                    None => {
                        proof {
                            assert(has_product(self.products@, pid));
                        }
                        unreached()
                    },
                };
                proof {
                    lemma_pidx_of(self.products@, pi as int);
                }
                let price = crate::store::effective_price(&self.products[pi]);
                items.push(OrderItem { product_id: pid, quantity: qty, price });
            }
            proof {
                let t = self.cart@.take(i + 1);
                assert(t.drop_last() =~= self.cart@.take(i as int));
                assert(t.last() == self.cart@[i as int]);
            }
            i += 1;
        }
        proof {
            assert(self.cart@.take(n as int) =~= self.cart@);
        }
        items
    }

    /// Exact integer total of the snapshot lines, or `None` where it would
    /// not fit the amount column.
    fn total_of(items: &Vec<OrderItem>) -> (r: Option<u64>)
        ensures
            match r {
                Some(t) => t == items_total(items@),
                None => items_total(items@) > u64::MAX,
            },
    {
        let n = items.len();
        let mut total: u64 = 0;
        let mut k: usize = 0;
        while k < n
            invariant
                k <= n,
                total == items_total(items@.take(k as int)),
            decreases n - k,
        {
            let price = items[k].price;
            let qty = items[k].quantity;
            proof {
                lemma_items_total_take_step(items@, k as int);
                lemma_items_total_take_le(items@, k + 1);
                lemma_items_total_nonneg(items@.take(k as int));
            }
            let line = match price.checked_mul(qty as u64) {
                Some(v) => v,
                None => {
                    return None;
                },
            };
            let new_total = match total.checked_add(line) {
                Some(v) => v,
                None => {
                    return None;
                },
            };
            total = new_total;
            k += 1;
        }
        proof {
            assert(items@.take(n as int) =~= items@);
        }
        Some(total)
    }

    /// Debit every line's quantity from its product's stock.
    fn debit_stock_for(&mut self, items: &Vec<OrderItem>)
        requires
            unique_product_ids(old(self).products@),
            forall|k: int|
                0 <= k < items@.len() ==> has_product(
                    old(self).products@,
                    (#[trigger] items@[k]).product_id,
                ),
            forall|a: int, b: int|
                0 <= a < b < items@.len() ==> items@[a].product_id != items@[b].product_id,
            stock_debit_fits(old(self).products@, items@),
        ensures
            stocks_debited_by(old(self).products@, final(self).products@, items@),
            final(self).users == old(self).users,
            final(self).orders == old(self).orders,
            final(self).cart == old(self).cart,
            final(self).categories == old(self).categories,
            final(self).next_id == old(self).next_id,
    {
        let ghost pre = *self;
        let n = items.len();
        let mut k: usize = 0;
        while k < n
            invariant
                k <= n,
                self.orders == pre.orders,
                self.users == pre.users,
                self.cart == pre.cart,
                self.categories == pre.categories,
                self.next_id == pre.next_id,
                self.products@.len() == pre.products@.len(),
                forall|i: int|
                    0 <= i < pre.products@.len() ==> #[trigger] self.products@[i]
                        == crate::store::with_stock(
                        pre.products@[i],
                        (pre.products@[i].stock - qty_in_items(
                            items@.take(k as int),
                            pre.products@[i].id,
                        )) as i64,
                    ),
            decreases n - k,
        {
            let pid = items[k].product_id;
            let qty = items[k].quantity;
            let pi = match self.find_product(pid) {
                Some(pi) => pi,
                None => {
                    proof {
                        lemma_same_ids_lookup(pre.products@, self.products@);
                    }
                    unreached()
                },
            };
            proof {
                lemma_pidx_of(pre.products@, pi as int);
                assert(pre.products@[pi as int].id == pid);
                assert(forall|j: int|
                    0 <= j < k ==> (#[trigger] items@.take(k as int)[j]).product_id != pid);
                lemma_qty_zero(items@.take(k as int), pid);
                assert(self.products@[pi as int].stock == pre.products@[pi as int].stock);
                assert(stock_of(pre.products@, pid) == pre.products@[pi as int].stock);
            }
            self.add_stock_at(pi, -(qty as i64));
            proof {
                let ghost prev = items@.take(k as int);
                assert forall|i: int| 0 <= i < pre.products@.len() implies #[trigger] self
                    .products@[i] == crate::store::with_stock(
                    pre.products@[i],
                    (pre.products@[i].stock - qty_in_items(
                        items@.take(k as int + 1),
                        pre.products@[i].id,
                    )) as i64,
                ) by {
                    lemma_qty_take_step(items@, k as int, pre.products@[i].id);
                    lemma_qty_nonneg(prev, pre.products@[i].id);
                    if i != pi as int {
                        assert(pre.products@[i].id != pid);
                    }
                }
            }
            k += 1;
        }
        proof {
            assert(items@.take(n as int) =~= items@);
        }
    }

    /// Remove every cart line of this user.
    fn clear_cart_of(&mut self, uid: u64)
        ensures
            final(self).cart@ == cart_kept(old(self).cart@, uid),
            final(self).users == old(self).users,
            final(self).orders == old(self).orders,
            final(self).products == old(self).products,
            final(self).categories == old(self).categories,
            final(self).next_id == old(self).next_id,
    {
        let ghost pre_cart = self.cart@;
        let n = self.cart.len();
        let mut kept: Vec<CartItem> = Vec::new();
        let mut i: usize = 0;
        while i < n
            invariant
                i <= n,
                self.cart@ == pre_cart,
                kept@ == cart_kept(pre_cart.take(i as int), uid),
            decreases n - i,
        {
            let line = CartItem {
                user_id: self.cart[i].user_id,
                product_id: self.cart[i].product_id,
                quantity: self.cart[i].quantity,
            };
            if line.user_id != uid {
                kept.push(line);
            }
            proof {
                let t = pre_cart.take(i + 1);
                assert(t.drop_last() =~= pre_cart.take(i as int));
                assert(t.last() == pre_cart[i as int]);
                assert(line == pre_cart[i as int]);
            }
            i += 1;
        }
        proof {
            assert(pre_cart.take(n as int) =~= pre_cart);
        }
        self.cart = kept;
    }

    /// Checkout: snapshot the cart, refuse an empty one, compute the exact
    /// total and its points, create the `Pending` order with its lines,
    /// debit every line from stock, and clear the cart — all of it, or, on
    /// any refusal, none of it.
    pub fn checkout(
        &mut self,
        user_id: u64,
        shipping: ShippingInfo,
        payment_method: Option<String>,
        now: i64,
    ) -> (r: Result<u64, OrderError>)
        requires
            old(self).wf(),
        ensures
            final(self).wf(),
            ({
                let known = has_user(old(self).users@, user_id);
                let snap = snapshot(old(self).products@, old(self).cart@, user_id);
                &&& (r is Ok <==> known && snap.len() > 0 && checkout_fits(*old(self), user_id))
                &&& match r {
                    Ok(oid) => checkout_applied(
                        *old(self),
                        *final(self),
                        user_id,
                        shipping,
                        payment_method,
                        now,
                        oid,
                    ),
                    Err(e) => {
                        &&& *final(self) == *old(self)
                        &&& (e == OrderError::EmptyCart <==> known && snap.len() == 0)
                        &&& (e == OrderError::EmptyCart <==> known && (forall|j: int|
                            0 <= j < old(self).cart@.len() ==> (#[trigger] old(
                                self,
                            ).cart@[j]).user_id != user_id))
                        &&& (e == OrderError::NotFound <==> !known)
                        &&& (e == OrderError::StorageFailure <==> known && snap.len() > 0
                            && !checkout_fits(*old(self), user_id))
                    },
                }
            }),
    {
        let ghost pre = *self;
        proof {
            lemma_snapshot_empty(pre.products@, pre.cart@, user_id);
        }
        if self.find_user(user_id).is_none() {
            return Err(OrderError::NotFound);
        }
        let items = self.build_snapshot(user_id);
        if items.len() == 0 {
            return Err(OrderError::EmptyCart);
        }
        let total = match Self::total_of(&items) {
            Some(t) => t,
            None => {
                return Err(OrderError::StorageFailure);
            },
        };
        if self.next_id == u64::MAX {
            return Err(OrderError::StorageFailure);
        }
        // Every debit must fit before any is applied.
        let n = items.len();
        let mut k: usize = 0;
        while k < n
            invariant
                k <= n,
                *self == pre,
                items@ == snapshot(pre.products@, pre.cart@, user_id),
                forall|m: int|
                    0 <= m < k ==> stock_of(pre.products@, (#[trigger] items@[m]).product_id)
                        - items@[m].quantity >= i64::MIN,
            decreases n - k,
        {
            let pid = items[k].product_id;
            let qty = items[k].quantity;
            proof {
                lemma_snapshot_member(pre.products@, pre.cart@, user_id, k as int);
                let j = choose|j: int|
                    0 <= j < pre.cart@.len() && (#[trigger] pre.cart@[j]).user_id == user_id
                        && snapshot(pre.products@, pre.cart@, user_id)[k as int] == snapshot_line(
                        pre.products@,
                        pre.cart@[j],
                    );
                assert(has_product(pre.products@, pre.cart@[j].product_id));
                assert(has_product(pre.products@, pid));
            }
            let pi = match self.find_product(pid) {
                Some(pi) => pi,
                None => unreached(),
            };
            proof {
                lemma_pidx_of(self.products@, pi as int);
            }
            if self.products[pi].stock < i64::MIN + qty as i64 {
                return Err(OrderError::StorageFailure);
            }
            k += 1;
        }
        assert(checkout_fits(pre, user_id));
        proof {
            assert forall|m: int| 0 <= m < items@.len() implies has_product(
                pre.products@,
                (#[trigger] items@[m]).product_id,
            ) by {
                lemma_snapshot_member(pre.products@, pre.cart@, user_id, m);
                let j = choose|j: int|
                    0 <= j < pre.cart@.len() && (#[trigger] pre.cart@[j]).user_id == user_id
                        && snapshot(pre.products@, pre.cart@, user_id)[m] == snapshot_line(
                        pre.products@,
                        pre.cart@[j],
                    );
                assert(has_product(pre.products@, pre.cart@[j].product_id));
            }
            lemma_snapshot_distinct(pre.products@, pre.cart@, user_id);
        }
        // The unit commits.
        self.debit_stock_for(&items);
        let pm = match payment_method {
            Some(p) => p,
            None => String::from_str("cod"),
        };
        let oid = self.next_id;
        let order = Order {
            id: oid,
            user_id,
            total_amount: total,
            final_amount: total,
            points_earned: total / 1000,
            status: OrderStatus::Pending,
            payment_method: pm,
            shipping,
            created_at: now,
            items,
        };
        self.orders.push(order);
        self.clear_cart_of(user_id);
        self.next_id = self.next_id + 1;
        proof {
            lemma_checkout_preserves_wf(pre, *self, user_id);
        }
        Ok(oid)
    }
}

/// Every debit is paired with its credit: cancelling an order right after
/// its checkout leaves every product's stock exactly where it started. The
/// lines the cancellation credits are the very snapshot the checkout
/// debited.
pub proof fn lemma_cancel_restores_checkout(
    pre: Store,
    mid: Store,
    fin: Store,
    uid: u64,
    shipping: ShippingInfo,
    pm: Option<String>,
    now: i64,
    oid: u64,
    notice: Option<crate::lifecycle::OrderNotice>,
)
    requires
        pre.wf(),
        checkout_fits(pre, uid),
        checkout_applied(pre, mid, uid, shipping, pm, now, oid),
        crate::lifecycle::transition_applied(
            mid,
            fin,
            mid.orders@.len() - 1,
            OrderStatus::Cancelled,
            notice,
        ),
    ensures
        fin.products@.len() == pre.products@.len(),
        forall|i: int|
            0 <= i < pre.products@.len() ==> (#[trigger] fin.products@[i]).stock
                == pre.products@[i].stock,
{
    let snap = snapshot(pre.products@, pre.cart@, uid);
    let o = mid.orders@[mid.orders@.len() - 1];
    assert(o.items@ == snap && o.status is Pending);
    lemma_snapshot_distinct(pre.products@, pre.cart@, uid);
    assert(stocks_debited_by(pre.products@, mid.products@, snap));
    assert(crate::lifecycle::stocks_credited_by(mid.products@, fin.products@, snap));
    assert forall|i: int| 0 <= i < pre.products@.len() implies (#[trigger] fin.products@[i]).stock
        == pre.products@[i].stock by {
        let id = pre.products@[i].id;
        let q = qty_in_items(snap, id);
        assert(mid.products@[i].id == id);
        lemma_qty_nonneg(snap, id);
        if exists|k: int| 0 <= k < snap.len() && (#[trigger] snap[k]).product_id == id {
            let k = choose|k: int| 0 <= k < snap.len() && (#[trigger] snap[k]).product_id == id;
            crate::store::lemma_qty_single(snap, k);
            lemma_pidx_of(pre.products@, i);
            assert(stock_of(pre.products@, id) == pre.products@[i].stock);
            assert(pre.products@[i].stock - q >= i64::MIN);
        } else {
            assert(forall|k: int|
                0 <= k < snap.len() ==> (#[trigger] snap[k]).product_id != id);
            lemma_qty_zero(snap, id);
        }
        assert(mid.products@[i].stock == pre.products@[i].stock - q);
        assert(fin.products@[i].stock == mid.products@[i].stock + q);
    }
}

/// Checkout preserves the store invariant: the new order is well formed by
/// construction, the stock debit moves no id, and the kept cart lines are
/// old cart lines of other users.
proof fn lemma_checkout_preserves_wf(pre: Store, post: Store, uid: u64)
    requires
        pre.wf(),
        has_user(pre.users@, uid),
        snapshot(pre.products@, pre.cart@, uid).len() > 0,
        checkout_fits(pre, uid),
        post.orders@.len() == pre.orders@.len() + 1,
        checkout_applied(
            pre,
            post,
            uid,
            post.orders@.last().shipping,
            Some(post.orders@.last().payment_method),
            post.orders@.last().created_at,
            pre.next_id,
        ),
    ensures
        post.wf(),
{
    let snap = snapshot(pre.products@, pre.cart@, uid);
    let o = post.orders@.last();
    assert(post.products@.len() == pre.products@.len());
    assert(forall|i: int|
        0 <= i < pre.products@.len() ==> #[trigger] post.products@[i].id == pre.products@[i].id);
    lemma_same_ids_lookup(pre.products@, post.products@);
    lemma_snapshot_distinct(pre.products@, pre.cart@, uid);
    lemma_cart_kept_distinct(pre.cart@, uid);
    // Order ids stay unique: every old id sits below the fresh one.
    assert forall|i: int, j: int| 0 <= i < j < post.orders@.len() implies post.orders@[i].id
        != post.orders@[j].id by {
        if j == post.orders@.len() - 1 {
            assert(post.orders@[i] == pre.orders@[i]);
        }
    }
    assert(unique_order_ids(post.orders@));
    // The new order is well formed; the old ones still are.
    assert forall|k: int| 0 <= k < o.items@.len() implies (#[trigger] o.items@[k]).quantity >= 1
        && has_product(post.products@, o.items@[k].product_id) by {
        assert(o.items@[k] == snapshot(pre.products@, pre.cart@, uid)[k]);
        lemma_snapshot_member(pre.products@, pre.cart@, uid, k);
        let j = choose|j: int|
            0 <= j < pre.cart@.len() && (#[trigger] pre.cart@[j]).user_id == uid && snapshot(
                pre.products@,
                pre.cart@,
                uid,
            )[k] == snapshot_line(pre.products@, pre.cart@[j]);
        assert(pre.cart@[j].quantity >= 1 && has_product(pre.products@, pre.cart@[j].product_id));
    }
    assert(post.order_wf(o));
    assert forall|i: int| 0 <= i < post.orders@.len() implies post.order_wf(
        #[trigger] post.orders@[i],
    ) by {
        if i < pre.orders@.len() {
            assert(post.orders@[i] == pre.orders@[i]);
            assert(pre.order_wf(pre.orders@[i]));
        }
    }
    // The kept cart lines were cart lines before.
    assert forall|i: int| 0 <= i < post.cart@.len() implies (#[trigger] post.cart@[i]).quantity
        >= 1 && has_product(post.products@, post.cart@[i].product_id) && has_user(
        post.users@,
        post.cart@[i].user_id,
    ) by {
        assert(post.cart@[i] == cart_kept(pre.cart@, uid)[i]);
        lemma_cart_kept_member(pre.cart@, uid, i);
        let j = choose|j: int| 0 <= j < pre.cart@.len() && #[trigger] pre.cart@[j] == cart_kept(
            pre.cart@,
            uid,
        )[i];
        assert(pre.cart@[j].quantity >= 1 && has_product(pre.products@, pre.cart@[j].product_id)
            && has_user(pre.users@, pre.cart@[j].user_id));
    }
}

} // verus!
