//! The order lifecycle service: one verified transition applier that owes
//! exactly the ledger deltas of the (old, new) status pair, and the
//! self-service and administrative operations built on it.

use vstd::pervasive::unreached;
use vstd::prelude::*;

use crate::errors::OrderError;
use crate::status::{effects, spec_effects, OrderStatus};
use crate::store::{
    has_order, has_product, has_user, lemma_oidx_of, lemma_pidx_of, lemma_qty_nonneg,
    lemma_qty_take_step, lemma_qty_zero, lemma_same_ids_lookup, lemma_uidx_of, oidx, order_of,
    points_after_debit, points_of, product_of, qty_in_items, stock_of, uidx, unique_order_ids,
    unique_product_ids, unique_user_ids, user_of, with_points, with_status, with_stock, Order,
    OrderItem, Product, Store, UserAccount,
};
use vstd::string::StringExecFns;

verus! {

/// One line of a shipping notice: the product's name with the captured
/// quantity and unit price.
pub struct NoticeLine {
    pub name: String,
    pub quantity: u32,
    pub price: u64,
}

/// A notification owed by a committed transition. It is handed back to the
/// caller to dispatch after the commit, fire-and-forget: delivery never
/// blocks nor undoes the transition itself.
pub enum OrderNotice {
    /// The shipping notice, with the order's lines and total.
    Shipping { email: String, order_id: u64, lines: Vec<NoticeLine>, total: u64 },
    /// The thank-you notice carrying the points just credited.
    Completion { email: String, order_id: u64, points: u64 },
}

/// The notice lines mirror the order's lines, joined with the product names.
pub open spec fn notice_lines_match(
    ps: Seq<Product>,
    items: Seq<OrderItem>,
    lines: Seq<NoticeLine>,
) -> bool {
    &&& lines.len() == items.len()
    &&& forall|k: int|
        0 <= k < items.len() ==> {
            let l = #[trigger] lines[k];
            &&& l.quantity == items[k].quantity
            &&& l.price == items[k].price
            &&& l.name@ == product_of(ps, items[k].product_id).name@
        }
}

// ---------------------------------------------------------------------------
// Room for the ledger deltas.
//
// Every balance column is finite; a delta that would leave its range aborts
// the whole unit with `StorageFailure`, exactly as the storage layer would
// refuse the row write and roll back.
// ---------------------------------------------------------------------------

/// Every line's quantity can be credited back to its product's stock.
pub open spec fn stock_credit_fits(ps: Seq<Product>, items: Seq<OrderItem>) -> bool {
    forall|k: int|
        0 <= k < items.len() ==> stock_of(ps, (#[trigger] items[k]).product_id)
            + items[k].quantity <= i64::MAX
}

/// Every line's quantity can be debited from its product's stock.
pub open spec fn stock_debit_fits(ps: Seq<Product>, items: Seq<OrderItem>) -> bool {
    forall|k: int|
        0 <= k < items.len() ==> stock_of(ps, (#[trigger] items[k]).product_id)
            - items[k].quantity >= i64::MIN
}

/// The user's balance can take the credit.
pub open spec fn points_credit_fits(us: Seq<UserAccount>, uid: u64, n: u64) -> bool {
    points_of(us, uid) + n <= u64::MAX
}

/// The deltas owed by moving the order at `oi` to `new` all fit their
/// columns. (The loyalty debit is floored at zero and always fits.)
pub open spec fn transition_fits(s: Store, oi: int, new: OrderStatus) -> bool {
    let o = s.orders@[oi];
    let e = spec_effects(o.status, new);
    &&& (e.credit_stock ==> stock_credit_fits(s.products@, o.items@))
    &&& (e.credit_points ==> points_credit_fits(s.users@, o.user_id, o.points_earned))
}

/// The post-state credited every line's quantity back onto its product row,
/// and touched nothing else of the product table.
pub open spec fn stocks_credited_by(
    pre: Seq<Product>,
    post: Seq<Product>,
    items: Seq<OrderItem>,
) -> bool {
    &&& post.len() == pre.len()
    &&& forall|i: int|
        0 <= i < pre.len() ==> post[i] == with_stock(
            #[trigger] pre[i],
            (pre[i].stock + qty_in_items(items, pre[i].id)) as i64,
        )
}

/// The post-state debited every line's quantity from its product row, and
/// touched nothing else of the product table.
pub open spec fn stocks_debited_by(
    pre: Seq<Product>,
    post: Seq<Product>,
    items: Seq<OrderItem>,
) -> bool {
    &&& post.len() == pre.len()
    &&& forall|i: int|
        0 <= i < pre.len() ==> post[i] == with_stock(
            #[trigger] pre[i],
            (pre[i].stock - qty_in_items(items, pre[i].id)) as i64,
        )
}

/// The complete meaning of one committed transition of the order at index
/// `oi` to status `new`: the status write, the ledger deltas of the
/// (old, new) pair and nothing else, and the notification owed.
pub open spec fn transition_applied(
    pre: Store,
    post: Store,
    oi: int,
    new: OrderStatus,
    notice: Option<OrderNotice>,
) -> bool {
    let o = pre.orders@[oi];
    let u = user_of(pre.users@, o.user_id);
    let ui = uidx(pre.users@, o.user_id);
    let e = spec_effects(o.status, new);
    &&& post.orders@ == pre.orders@.update(oi, with_status(o, new))
    &&& if e.credit_stock {
        stocks_credited_by(pre.products@, post.products@, o.items@)
    } else {
        post.products@ == pre.products@
    }
    &&& if e.credit_points {
        post.users@ == pre.users@.update(
            ui,
            with_points(u, (u.points + o.points_earned) as u64),
        )
    } else if e.debit_points {
        post.users@ == pre.users@.update(
            ui,
            with_points(u, points_after_debit(u.points as int, o.points_earned as int) as u64),
        )
    } else {
        post.users@ == pre.users@
    }
    &&& post.cart@ == pre.cart@
    &&& post.categories@ == pre.categories@
    &&& post.next_id == pre.next_id
    &&& match notice {
        Some(n) => match n {
            OrderNotice::Shipping { email, order_id, lines, total } => {
                &&& e.notify_shipping
                &&& email@ == u.email@
                &&& order_id == o.id
                &&& total == o.final_amount
                &&& notice_lines_match(pre.products@, o.items@, lines@)
            },
            OrderNotice::Completion { email, order_id, points } => {
                &&& e.notify_completion
                &&& email@ == u.email@
                &&& order_id == o.id
                &&& points == o.points_earned
            },
        },
        None => !e.notify_shipping && !e.notify_completion,
    }
}

impl Store {
    /// Collect the notice lines of the order at `oi` from the product table.
    pub(crate) fn collect_notice_lines(&self, oi: usize) -> (lines: Vec<NoticeLine>)
        requires
            self.wf(),
            oi < self.orders@.len(),
        ensures
            notice_lines_match(self.products@, self.orders@[oi as int].items@, lines@),
    {
        let items: &Vec<OrderItem> = &self.orders[oi].items;
        let n = items.len();
        let mut lines: Vec<NoticeLine> = Vec::new();
        let mut k: usize = 0;
        while k < n
            invariant
                self.wf(),
                oi < self.orders@.len(),
                items@ == self.orders@[oi as int].items@,
                n == items@.len(),
                k <= n,
                lines@.len() == k,
                forall|m: int|
                    0 <= m < k ==> {
                        let l = #[trigger] lines@[m];
                        &&& l.quantity == items@[m].quantity
                        &&& l.price == items@[m].price
                        &&& l.name@ == product_of(self.products@, items@[m].product_id).name@
                    },
            decreases n - k,
        {
            let pid = items[k].product_id;
            let pi = match self.find_product(pid) {
                Some(pi) => pi,
                None => {
                    // The invariant says every line's product exists.
                    proof {
                        assert(self.order_wf(self.orders@[oi as int]));
                        assert(has_product(self.products@, pid));
                    }
                    unreached()
                },
            };
            proof {
                lemma_pidx_of(self.products@, pi as int);
            }
            let line = NoticeLine {
                name: self.products[pi].name.clone(),
                quantity: items[k].quantity,
                price: items[k].price,
            };
            lines.push(line);
            k += 1;
        }
        lines
    }

    /// Move the order at index `oi` to `new_status`, applying exactly the
    /// ledger deltas the (old, new) pair owes, all or nothing.
    fn apply_transition(&mut self, oi: usize, new_status: OrderStatus) -> (r: Result<
        Option<OrderNotice>,
        OrderError,
    >)
        requires
            old(self).wf(),
            oi < old(self).orders@.len(),
        ensures
            final(self).wf(),
            r is Ok <==> transition_fits(*old(self), oi as int, new_status),
            match r {
                Ok(notice) => transition_applied(
                    *old(self),
                    *final(self),
                    oi as int,
                    new_status,
                    notice,
                ),
                Err(e) => e == OrderError::StorageFailure && *final(self) == *old(self),
            },
    {
        let ghost pre = *self;
        let old_status = self.orders[oi].status;
        let e = effects(old_status, new_status);
        let uid = self.orders[oi].user_id;
        let ui = match self.find_user(uid) {
            Some(ui) => ui,
            None => {
                proof {
                    assert(self.order_wf(self.orders@[oi as int]));
                }
                unreached()
            },
        };
        proof {
            lemma_uidx_of(self.users@, ui as int);
        }
        // Phase one: nothing is written until every delta is known to fit.
        if e.credit_points {
            let pts = self.users[ui].points;
            let earned = self.orders[oi].points_earned;
            if pts > u64::MAX - earned {
                return Err(OrderError::StorageFailure);
            }
        }
        if e.credit_stock {
            let n = self.orders[oi].items.len();
            let mut k: usize = 0;
            while k < n
                invariant
                    self.wf(),
                    oi < self.orders@.len(),
                    n == self.orders@[oi as int].items@.len(),
                    k <= n,
                    forall|m: int|
                        0 <= m < k ==> stock_of(
                            self.products@,
                            (#[trigger] self.orders@[oi as int].items@[m]).product_id,
                        ) + self.orders@[oi as int].items@[m].quantity <= i64::MAX,
                decreases n - k,
            {
                let pid = self.orders[oi].items[k].product_id;
                let qty = self.orders[oi].items[k].quantity;
                let pi = match self.find_product(pid) {
                    Some(pi) => pi,
                    None => {
                        proof {
                            assert(self.order_wf(self.orders@[oi as int]));
                            assert(has_product(self.products@, pid));
                        }
                        unreached()
                    },
                };
                proof {
                    lemma_pidx_of(self.products@, pi as int);
                }
                if self.products[pi].stock > i64::MAX - qty as i64 {
                    return Err(OrderError::StorageFailure);
                }
                k += 1;
            }
        }
        // Every delta fits; the unit commits.
        assert(transition_fits(pre, oi as int, new_status));
        // The notice reads the pre-state tables, so build it first.
        let notice: Option<OrderNotice> = if e.notify_shipping {
            let lines = self.collect_notice_lines(oi);
            Some(
                OrderNotice::Shipping {
                    email: self.users[ui].email.clone(),
                    order_id: self.orders[oi].id,
                    lines,
                    total: self.orders[oi].final_amount,
                },
            )
        } else if e.notify_completion {
            Some(
                OrderNotice::Completion {
                    email: self.users[ui].email.clone(),
                    order_id: self.orders[oi].id,
                    points: self.orders[oi].points_earned,
                },
            )
        } else {
            None
        };
        if e.credit_stock {
            self.credit_stock_of_items(oi);
        }
        if e.credit_points {
            let pts = self.users[ui].points;
            let earned = self.orders[oi].points_earned;
            self.set_points_at(ui, pts + earned);
        } else if e.debit_points {
            let pts = self.users[ui].points;
            let earned = self.orders[oi].points_earned;
            let floored = if pts >= earned {
                pts - earned
            } else {
                0
            };
            self.set_points_at(ui, floored);
        }
        self.set_status_at(oi, new_status);
        proof {
            assert(transition_applied(pre, *self, oi as int, new_status, notice));
            lemma_transition_preserves_wf(pre, *self, oi as int, new_status, notice);
        }
        Ok(notice)
    }

    /// Credit every line of the order at `oi` back onto the product table.
    fn credit_stock_of_items(&mut self, oi: usize)
        requires
            old(self).wf(),
            oi < old(self).orders@.len(),
            stock_credit_fits(old(self).products@, old(self).orders@[oi as int].items@),
        ensures
            stocks_credited_by(
                old(self).products@,
                final(self).products@,
                old(self).orders@[oi as int].items@,
            ),
            final(self).users == old(self).users,
            final(self).orders == old(self).orders,
            final(self).cart == old(self).cart,
            final(self).categories == old(self).categories,
            final(self).next_id == old(self).next_id,
    {
        let ghost pre = *self;
        let ghost items = old(self).orders@[oi as int].items@;
        proof {
            assert(pre.order_wf(pre.orders@[oi as int]));
        }
        let n = self.orders[oi].items.len();
        let mut k: usize = 0;
        while k < n
            invariant
                pre.wf(),
                oi < pre.orders@.len(),
                items == pre.orders@[oi as int].items@,
                stock_credit_fits(pre.products@, items),
                n == items.len(),
                k <= n,
                self.orders == pre.orders,
                self.users == pre.users,
                self.cart == pre.cart,
                self.categories == pre.categories,
                self.next_id == pre.next_id,
                self.products@.len() == pre.products@.len(),
                forall|i: int|
                    0 <= i < pre.products@.len() ==> #[trigger] self.products@[i] == with_stock(
                        pre.products@[i],
                        (pre.products@[i].stock + qty_in_items(
                            items.take(k as int),
                            pre.products@[i].id,
                        )) as i64,
                    ),
            decreases n - k,
        {
            let pid = self.orders[oi].items[k].product_id;
            let qty = self.orders[oi].items[k].quantity;
            proof {
                assert(pre.order_wf(pre.orders@[oi as int]));
                assert(has_product(pre.products@, pid));
            }
            let pi = match self.find_product(pid) {
                Some(pi) => pi,
                None => {
                    proof {
                        lemma_same_ids_lookup(pre.products@, self.products@);
                    }
                    unreached()
                },
            };
            proof {
                lemma_pidx_of(pre.products@, pi as int);
                // Lines before `k` name other products, so row `pi` is still
                // at its pre-state stock.
                assert(forall|j: int|
                    0 <= j < k ==> (#[trigger] items.take(k as int)[j]).product_id != pid);
                lemma_qty_zero(items.take(k as int), pid);
                assert(self.products@[pi as int].stock == pre.products@[pi as int].stock);
                assert(stock_of(pre.products@, pid) == pre.products@[pi as int].stock);
            }
            proof {
                assert(pre.products@[pi as int].id == pid);
            }
            self.add_stock_at(pi, qty as i64);
            proof {
                let ghost prev = items.take(k as int);
                assert forall|i: int| 0 <= i < pre.products@.len() implies #[trigger] self
                    .products@[i] == with_stock(
                    pre.products@[i],
                    (pre.products@[i].stock + qty_in_items(
                        items.take(k as int + 1),
                        pre.products@[i].id,
                    )) as i64,
                ) by {
                    lemma_qty_take_step(items, k as int, pre.products@[i].id);
                    lemma_qty_nonneg(prev, pre.products@[i].id);
                    if i != pi as int {
                        assert(pre.products@[i].id != pid);
                    }
                }
            }
            k += 1;
        }
        proof {
            assert(items.take(n as int) =~= items);
        }
    }
}

/// The payment method string that marks cash on delivery.
pub open spec fn cod_method() -> Seq<char> {
    "cod"@
}

/// The order exists and belongs to this user. A lifecycle request that fails
/// this is answered `NotFound`, whether the order is absent or merely
/// someone else's.
pub open spec fn owned_order(s: Store, uid: u64, oid: u64) -> bool {
    has_order(s.orders@, oid) && order_of(s.orders@, oid).user_id == uid
}

/// The self-service return window has closed: eight or more full days have
/// passed since creation. Up to and including the seventh day the return is
/// accepted.
pub open spec fn return_expired(created_at: int, now: int) -> bool {
    now - created_at >= 8 * 86400
}

/// Whether `pm` names cash on delivery.
pub fn is_cod(pm: &String) -> (r: bool)
    ensures
        r == (pm@ == cod_method()),
{
    let c = String::from_str("cod");
    *pm == c
}

impl Store {
    /// Customer confirmation of delivery: moves a `Shipping` order of this
    /// user to `Completed` and credits its points, once. Cash-on-delivery
    /// orders are refused: their completion awaits the administrator who
    /// collects the payment.
    pub fn receive_order(&mut self, user_id: u64, order_id: u64) -> (r: Result<
        Option<OrderNotice>,
        OrderError,
    >)
        requires
            old(self).wf(),
        ensures
            final(self).wf(),
            ({
                let owned = owned_order(*old(self), user_id, order_id);
                let o = order_of(old(self).orders@, order_id);
                let oi = oidx(old(self).orders@, order_id);
                let cod = o.payment_method@ == cod_method();
                &&& (r is Ok <==> owned && !cod && o.status is Shipping && transition_fits(
                    *old(self),
                    oi,
                    OrderStatus::Completed,
                ))
                &&& match r {
                    Ok(n) => transition_applied(
                        *old(self),
                        *final(self),
                        oi,
                        OrderStatus::Completed,
                        n,
                    ),
                    Err(e) => {
                        &&& *final(self) == *old(self)
                        &&& (e == OrderError::NotFound <==> !owned)
                        &&& (e == OrderError::PaymentPending <==> owned && cod)
                        &&& (e == OrderError::InvalidTransition <==> owned && !cod && !(o.status
                            is Shipping))
                        &&& (e == OrderError::StorageFailure <==> owned && !cod && o.status
                            is Shipping && !transition_fits(*old(self), oi, OrderStatus::Completed))
                    },
                }
            }),
    {
        let oi = match self.find_order(order_id) {
            Some(i) => i,
            None => {
                return Err(OrderError::NotFound);
            },
        };
        proof {
            lemma_oidx_of(self.orders@, oi as int);
        }
        if self.orders[oi].user_id != user_id {
            return Err(OrderError::NotFound);
        }
        if is_cod(&self.orders[oi].payment_method) {
            return Err(OrderError::PaymentPending);
        }
        if self.orders[oi].status != OrderStatus::Shipping {
            return Err(OrderError::InvalidTransition);
        }
        self.apply_transition(oi, OrderStatus::Completed)
    }

    /// Customer cancellation: moves a `Pending` order of this user to
    /// `Cancelled` and restores every line's quantity to its product's
    /// stock. From any other status the request is refused and the stock is
    /// untouched.
    pub fn cancel_order(&mut self, user_id: u64, order_id: u64) -> (r: Result<
        Option<OrderNotice>,
        OrderError,
    >)
        requires
            old(self).wf(),
        ensures
            final(self).wf(),
            ({
                let owned = owned_order(*old(self), user_id, order_id);
                let o = order_of(old(self).orders@, order_id);
                let oi = oidx(old(self).orders@, order_id);
                &&& (r is Ok <==> owned && o.status is Pending && transition_fits(
                    *old(self),
                    oi,
                    OrderStatus::Cancelled,
                ))
                &&& match r {
                    Ok(n) => transition_applied(
                        *old(self),
                        *final(self),
                        oi,
                        OrderStatus::Cancelled,
                        n,
                    ),
                    Err(e) => {
                        &&& *final(self) == *old(self)
                        &&& (e == OrderError::NotFound <==> !owned)
                        &&& (e == OrderError::InvalidTransition <==> owned && !(o.status
                            is Pending))
                        &&& (e == OrderError::StorageFailure <==> owned && o.status is Pending
                            && !transition_fits(*old(self), oi, OrderStatus::Cancelled))
                    },
                }
            }),
    {
        let oi = match self.find_order(order_id) {
            Some(i) => i,
            None => {
                return Err(OrderError::NotFound);
            },
        };
        proof {
            lemma_oidx_of(self.orders@, oi as int);
        }
        if self.orders[oi].user_id != user_id {
            return Err(OrderError::NotFound);
        }
        if self.orders[oi].status != OrderStatus::Pending {
            return Err(OrderError::InvalidTransition);
        }
        self.apply_transition(oi, OrderStatus::Cancelled)
    }

    /// Customer return: moves a `Completed` order of this user to `Returned`
    /// within seven days of creation, restoring stock and debiting the
    /// earned points, floored at zero. `now` is the current instant in
    /// seconds of Unix time.
    pub fn return_order(&mut self, user_id: u64, order_id: u64, now: i64) -> (r: Result<
        Option<OrderNotice>,
        OrderError,
    >)
        requires
            old(self).wf(),
        ensures
            final(self).wf(),
            return_order_resolved(*old(self), *final(self), user_id, order_id, now, r),
    {
        let oi = match self.find_order(order_id) {
            Some(i) => i,
            None => {
                return Err(OrderError::NotFound);
            },
        };
        proof {
            lemma_oidx_of(self.orders@, oi as int);
        }
        if self.orders[oi].user_id != user_id {
            return Err(OrderError::NotFound);
        }
        if self.orders[oi].status != OrderStatus::Completed {
            return Err(OrderError::InvalidTransition);
        }
        let created = self.orders[oi].created_at;
        if (now as i128) - (created as i128) >= 8 * 86400 {
            return Err(OrderError::Expired);
        }
        self.apply_transition(oi, OrderStatus::Returned)
    }

    /// Administrative status write: any caller holding the administrator
    /// role may move any order to any status; the ledger effects are
    /// re-derived from the (old, new) pair alone, so re-setting the current
    /// status changes nothing but the status byte.
    pub fn update_order_status(&mut self, caller_id: u64, order_id: u64, new_status: OrderStatus)
        -> (r: Result<Option<OrderNotice>, OrderError>)
        requires
            old(self).wf(),
        ensures
            final(self).wf(),
            ({
                let known = has_user(old(self).users@, caller_id);
                let admin_ok = known && user_of(old(self).users@, caller_id).is_admin;
                let found = has_order(old(self).orders@, order_id);
                let oi = oidx(old(self).orders@, order_id);
                &&& (r is Ok <==> admin_ok && found && transition_fits(
                    *old(self),
                    oi,
                    new_status,
                ))
                &&& match r {
                    Ok(n) => transition_applied(*old(self), *final(self), oi, new_status, n),
                    Err(e) => {
                        &&& *final(self) == *old(self)
                        &&& (e == OrderError::NotFound <==> !known || (admin_ok && !found))
                        &&& (e == OrderError::Forbidden <==> known && !user_of(
                            old(self).users@,
                            caller_id,
                        ).is_admin)
                        &&& (e == OrderError::StorageFailure <==> admin_ok && found
                            && !transition_fits(*old(self), oi, new_status))
                    },
                }
            }),
    {
        let ci = match self.find_user(caller_id) {
            Some(i) => i,
            None => {
                return Err(OrderError::NotFound);
            },
        };
        proof {
            lemma_uidx_of(self.users@, ci as int);
        }
        if !self.users[ci].is_admin {
            return Err(OrderError::Forbidden);
        }
        let oi = match self.find_order(order_id) {
            Some(i) => i,
            None => {
                return Err(OrderError::NotFound);
            },
        };
        proof {
            lemma_oidx_of(self.orders@, oi as int);
        }
        self.apply_transition(oi, new_status)
    }

    /// Whether this user has a `Completed` order containing this product;
    /// the read that gates post-purchase actions such as reviews.
    pub fn check_purchase(&self, user_id: u64, product_id: u64) -> (r: bool)
        ensures
            r == has_completed_purchase(*self, user_id, product_id),
    {
        let n = self.orders.len();
        let mut i: usize = 0;
        while i < n
            invariant
                i <= n,
                n == self.orders@.len(),
                forall|j: int|
                    0 <= j < i ==> !(self.orders@[j].user_id == user_id && self.orders@[j].status
                        is Completed && order_holds_product(#[trigger] self.orders@[j], product_id)),
            decreases n - i,
        {
            if self.orders[i].user_id == user_id && self.orders[i].status
                == OrderStatus::Completed {
                let items = &self.orders[i].items;
                let m = items.len();
                let mut k: usize = 0;
                while k < m
                    invariant
                        k <= m,
                        m == items@.len(),
                        forall|j: int| 0 <= j < k ==> (#[trigger] items@[j]).product_id
                            != product_id,
                    decreases m - k,
                {
                    if items[k].product_id == product_id {
                        return true;
                    }
                    k += 1;
                }
            }
            i += 1;
        }
        false
    }
}

/// Some line of the order names this product.
pub open spec fn order_holds_product(o: Order, pid: u64) -> bool {
    exists|k: int| 0 <= k < o.items@.len() && o.items@[k].product_id == pid
}

/// The user has some completed order holding this product.
pub open spec fn has_completed_purchase(s: Store, uid: u64, pid: u64) -> bool {
    exists|i: int|
        0 <= i < s.orders@.len() && (#[trigger] s.orders@[i]).user_id == uid && s.orders@[i].status
            is Completed && order_holds_product(s.orders@[i], pid)
}

/// The full outcome relation of a return request at instant `now`. The
/// clock enters only here: given the same state and instant, the outcome is
/// determined.
pub open spec fn return_order_resolved(
    pre: Store,
    post: Store,
    user_id: u64,
    order_id: u64,
    now: i64,
    r: Result<Option<OrderNotice>, OrderError>,
) -> bool {
    let owned = owned_order(pre, user_id, order_id);
    let o = order_of(pre.orders@, order_id);
    let oi = oidx(pre.orders@, order_id);
    let expired = return_expired(o.created_at as int, now as int);
    &&& (r is Ok <==> owned && o.status is Completed && !expired && transition_fits(
        pre,
        oi,
        OrderStatus::Returned,
    ))
    &&& match r {
        Ok(n) => transition_applied(pre, post, oi, OrderStatus::Returned, n),
        Err(e) => {
            &&& post == pre
            &&& (e == OrderError::NotFound <==> !owned)
            &&& (e == OrderError::InvalidTransition <==> owned && !(o.status is Completed))
            &&& (e == OrderError::Expired <==> owned && o.status is Completed && expired)
            &&& (e == OrderError::StorageFailure <==> owned && o.status is Completed && !expired
                && !transition_fits(pre, oi, OrderStatus::Returned))
        },
    }
}

/// Replaying the same target status right after a transition is a complete
/// no-op: the second application changes no stock, no points, no order, and
/// owes no notification. Ledger deltas are keyed by the (old, new) pair, and
/// the pair has become (new, new).
pub proof fn lemma_replay_no_double_apply(
    pre: Store,
    mid: Store,
    fin: Store,
    oi: int,
    new: OrderStatus,
    n1: Option<OrderNotice>,
    n2: Option<OrderNotice>,
)
    requires
        pre.wf(),
        0 <= oi < pre.orders@.len(),
        transition_applied(pre, mid, oi, new, n1),
        transition_applied(mid, fin, oi, new, n2),
    ensures
        fin.products@ == mid.products@,
        fin.users@ == mid.users@,
        fin.orders@ == mid.orders@,
        fin.cart@ == mid.cart@,
        fin.next_id == mid.next_id,
        n2 is None,
{
    assert(mid.orders@[oi].status == new);
    assert(fin.orders@ =~= mid.orders@) by {
        assert(with_status(mid.orders@[oi], new) == mid.orders@[oi]);
        assert(fin.orders@ =~= mid.orders@.update(oi, mid.orders@[oi]));
    }
}

/// What an order earns is fixed at creation: no transition recomputes any
/// order's points, amounts, lines, owner, payment method or creation
/// instant — only the one status byte moves.
pub proof fn lemma_transition_keeps_order_columns(
    pre: Store,
    post: Store,
    oi: int,
    new: OrderStatus,
    notice: Option<OrderNotice>,
)
    requires
        0 <= oi < pre.orders@.len(),
        transition_applied(pre, post, oi, new, notice),
    ensures
        post.orders@.len() == pre.orders@.len(),
        forall|i: int|
            0 <= i < pre.orders@.len() ==> {
                let o = #[trigger] post.orders@[i];
                let q = pre.orders@[i];
                &&& o.id == q.id
                &&& o.user_id == q.user_id
                &&& o.points_earned == q.points_earned
                &&& o.total_amount == q.total_amount
                &&& o.final_amount == q.final_amount
                &&& o.items == q.items
                &&& o.payment_method == q.payment_method
                &&& o.created_at == q.created_at
            },
{
}

/// A transition never breaks the store invariant: it only rewrites one
/// status, stock counts and one points balance.
proof fn lemma_transition_preserves_wf(
    pre: Store,
    post: Store,
    oi: int,
    new: OrderStatus,
    notice: Option<OrderNotice>,
)
    requires
        pre.wf(),
        0 <= oi < pre.orders@.len(),
        transition_applied(pre, post, oi, new, notice),
    ensures
        post.wf(),
{
    let o = pre.orders@[oi];
    let e = spec_effects(o.status, new);
    assert(post.products@.len() == pre.products@.len());
    assert(forall|i: int|
        0 <= i < pre.products@.len() ==> #[trigger] post.products@[i].id == pre.products@[i].id);
    lemma_same_ids_lookup(pre.products@, post.products@);
    assert(post.users@.len() == pre.users@.len());
    assert(forall|i: int|
        0 <= i < pre.users@.len() ==> #[trigger] post.users@[i].id == pre.users@[i].id);
    assert(unique_user_ids(post.users@));
    assert forall|uid: u64| has_user(pre.users@, uid) implies has_user(post.users@, uid) by {
        let k = uidx(pre.users@, uid);
        assert(post.users@[k].id == uid);
    }
    assert(forall|i: int|
        0 <= i < post.orders@.len() ==> #[trigger] post.orders@[i].id == pre.orders@[i].id);
    assert(unique_order_ids(post.orders@));
    assert forall|i: int| 0 <= i < post.orders@.len() implies post.order_wf(
        #[trigger] post.orders@[i],
    ) by {
        assert(pre.order_wf(pre.orders@[i]));
        let po = post.orders@[i];
        let qo = pre.orders@[i];
        assert(po.items@ == qo.items@ && po.total_amount == qo.total_amount && po.final_amount
            == qo.final_amount && po.points_earned == qo.points_earned && po.user_id
            == qo.user_id);
    }
}

} // verus!
