//! Read-only views over the store: one order's detail, a user's order
//! history, and the aggregate figures of the admin dashboard.

use vstd::prelude::*;

use crate::errors::OrderError;
use crate::lifecycle::{notice_lines_match, owned_order, NoticeLine};
use crate::status::OrderStatus;
use crate::store::{
    lemma_oidx_of, lemma_qty_nonneg, lemma_qty_take_step, oidx, order_of, qty_in_items, Order,
    OrderItem, Store,
};

verus! {

/// One row of a user's order history.
pub struct OrderHistory {
    pub id: u64,
    pub final_amount: u64,
    pub status: OrderStatus,
    pub payment_method: String,
    pub points_earned: u64,
    pub created_at: i64,
}

/// The history row of one order.
pub open spec fn summary_of(o: Order) -> OrderHistory {
    OrderHistory {
        id: o.id,
        final_amount: o.final_amount,
        status: o.status,
        payment_method: o.payment_method,
        points_earned: o.points_earned,
        created_at: o.created_at,
    }
}

/// The history of one user's orders, most recent creation first (orders are
/// appended in creation order).
pub open spec fn history_of(os: Seq<Order>, uid: u64) -> Seq<OrderHistory>
    decreases os.len(),
{
    if os.len() == 0 {
        Seq::empty()
    } else {
        let rest = history_of(os.drop_first(), uid);
        if os.first().user_id == uid {
            rest.push(summary_of(os.first()))
        } else {
            rest
        }
    }
}

/// Orders with one given status.
pub open spec fn count_with_status(os: Seq<Order>, st: OrderStatus) -> int
    decreases os.len(),
{
    if os.len() == 0 {
        0
    } else {
        count_with_status(os.drop_last(), st) + if os.last().status == st {
            1int
        } else {
            0
        }
    }
}

/// Sum of the final amounts of the completed orders.
pub open spec fn completed_revenue(os: Seq<Order>) -> int
    decreases os.len(),
{
    if os.len() == 0 {
        0
    } else {
        completed_revenue(os.drop_last()) + if os.last().status is Completed {
            os.last().final_amount as int
        } else {
            0
        }
    }
}

proof fn lemma_count_take_step(os: Seq<Order>, k: int, st: OrderStatus)
    requires
        0 <= k < os.len(),
    ensures
        count_with_status(os.take(k + 1), st) == count_with_status(os.take(k), st) + if os[
            k
        ].status == st {
            1int
        } else {
            0
        },
{
    let t = os.take(k + 1);
    assert(t.drop_last() =~= os.take(k));
    assert(t.last() == os[k]);
    assert(count_with_status(t, st) == count_with_status(t.drop_last(), st) + if t.last().status
        == st {
        1int
    } else {
        0
    });
}

proof fn lemma_revenue_take_step(os: Seq<Order>, k: int)
    requires
        0 <= k < os.len(),
    ensures
        completed_revenue(os.take(k + 1)) == completed_revenue(os.take(k)) + if os[k].status
            is Completed {
            os[k].final_amount as int
        } else {
            0
        },
{
    let t = os.take(k + 1);
    assert(t.drop_last() =~= os.take(k));
    assert(t.last() == os[k]);
    assert(completed_revenue(t) == completed_revenue(t.drop_last()) + if t.last().status
        is Completed {
        t.last().final_amount as int
    } else {
        0
    });
}

/// Total quantity of one product sold across the completed orders.
pub open spec fn completed_qty(os: Seq<Order>, pid: u64) -> int
    decreases os.len(),
{
    if os.len() == 0 {
        0
    } else {
        completed_qty(os.drop_last(), pid) + if os.last().status is Completed {
            qty_in_items(os.last().items@, pid)
        } else {
            0
        }
    }
}

proof fn lemma_completed_qty_nonneg(os: Seq<Order>, pid: u64)
    ensures
        completed_qty(os, pid) >= 0,
    decreases os.len(),
{
    if os.len() > 0 {
        lemma_completed_qty_nonneg(os.drop_last(), pid);
        lemma_qty_nonneg(os.last().items@, pid);
    }
}

proof fn lemma_completed_qty_take_step(os: Seq<Order>, k: int, pid: u64)
    requires
        0 <= k < os.len(),
    ensures
        completed_qty(os.take(k + 1), pid) == completed_qty(os.take(k), pid) + if os[k].status
            is Completed {
            qty_in_items(os[k].items@, pid)
        } else {
            0
        },
{
    let t = os.take(k + 1);
    assert(t.drop_last() =~= os.take(k));
    assert(t.last() == os[k]);
    assert(completed_qty(t, pid) == completed_qty(t.drop_last(), pid) + if t.last().status
        is Completed {
        qty_in_items(t.last().items@, pid)
    } else {
        0
    });
}

proof fn lemma_completed_qty_take_le(os: Seq<Order>, k: int, pid: u64)
    requires
        0 <= k <= os.len(),
    ensures
        completed_qty(os.take(k), pid) <= completed_qty(os, pid),
    decreases os.len() - k,
{
    if k == os.len() {
        assert(os.take(k) =~= os);
    } else {
        lemma_completed_qty_take_step(os, k, pid);
        lemma_qty_nonneg(os[k].items@, pid);
        lemma_completed_qty_take_le(os, k + 1, pid);
    }
}

/// Total quantity of one product in a run of lines.
fn quantity_in_lines(items: &Vec<OrderItem>, pid: u64) -> (q: u128)
    ensures
        q == qty_in_items(items@, pid),
{
    let n = items.len();
    let mut q: u128 = 0;
    let mut k: usize = 0;
    while k < n
        invariant
            k <= n,
            n == items@.len(),
            q == qty_in_items(items@.take(k as int), pid),
            q <= (k as int) * (u32::MAX as int),
        decreases n - k,
    {
        proof {
            lemma_qty_take_step(items@, k as int, pid);
            assert((k as int) * (u32::MAX as int) + (u32::MAX as int) == (k as int + 1) * (
            u32::MAX as int)) by (nonlinear_arith);
            assert((k as int + 1) * (u32::MAX as int) <= u128::MAX as int) by (nonlinear_arith)
                requires
                    0 <= k as int && k as int <= u64::MAX as int,
            ;
        }
        if items[k].product_id == pid {
            q += items[k].quantity as u128;
        }
        k += 1;
    }
    proof {
        assert(items@.take(n as int) =~= items@);
    }
    q
}

/// Orders per status, as the dashboard shows them.
#[derive(Clone, Copy, PartialEq, Eq, Structural, Debug)]
pub struct OrderStatusStats {
    pub pending: u64,
    pub shipping: u64,
    pub completed: u64,
    pub cancelled: u64,
    pub returned: u64,
}

/// The dashboard figures: completed revenue, table sizes, and the order
/// counts per status.
pub struct Analytics {
    pub revenue_completed: u128,
    pub order_count: u64,
    pub user_count: u64,
    pub stats: OrderStatusStats,
}

impl Store {
    /// The order's lines joined with the product names, for its owner only.
    /// A non-owner is answered `NotFound`, exactly as for an absent id.
    pub fn order_detail(&self, user_id: u64, order_id: u64) -> (r: Result<
        Vec<NoticeLine>,
        OrderError,
    >)
        requires
            self.wf(),
        ensures
            r is Ok <==> owned_order(*self, user_id, order_id),
            match r {
                Ok(lines) => notice_lines_match(
                    self.products@,
                    order_of(self.orders@, order_id).items@,
                    lines@,
                ),
                Err(e) => e == OrderError::NotFound,
            },
    {
        let oi = match self.find_order(order_id) {
            Some(i) => i,
            None => {
                return Err(OrderError::NotFound);
            },
        };
        proof {
            lemma_oidx_of(self.orders@, oi as int);
        }
        if self.orders[oi].user_id != user_id {
            return Err(OrderError::NotFound);
        }
        Ok(self.collect_notice_lines(oi))
    }

    /// This user's orders, most recently created first.
    pub fn my_orders(&self, user_id: u64) -> (r: Vec<OrderHistory>)
        ensures
            r@ == history_of(self.orders@, user_id),
    {
        let n = self.orders.len();
        let mut out: Vec<OrderHistory> = Vec::new();
        let mut i: usize = n;
        proof {
            assert(self.orders@.skip(n as int) =~= Seq::<Order>::empty());
        }
        while i > 0
            invariant
                i <= n,
                n == self.orders@.len(),
                out@ == history_of(self.orders@.skip(i as int), user_id),
            decreases i,
        {
            i -= 1;
            if self.orders[i].user_id == user_id {
                let o = &self.orders[i];
                out.push(
                    OrderHistory {
                        id: o.id,
                        final_amount: o.final_amount,
                        status: o.status,
                        payment_method: o.payment_method.clone(),
                        points_earned: o.points_earned,
                        created_at: o.created_at,
                    },
                );
            }
            proof {
                let t = self.orders@.skip(i as int);
                assert(t.drop_first() =~= self.orders@.skip(i as int + 1));
                assert(t.first() == self.orders@[i as int]);
            }
        }
        proof {
            assert(self.orders@.skip(0) =~= self.orders@);
        }
        out
    }

    /// How many units of one product the completed orders sold, or `None`
    /// where the sum would leave its column.
    pub fn completed_quantity_of(&self, pid: u64) -> (r: Option<u128>)
        ensures
            match r {
                Some(q) => q == completed_qty(self.orders@, pid),
                None => completed_qty(self.orders@, pid) > u128::MAX,
            },
    {
        let n = self.orders.len();
        let mut total: u128 = 0;
        let mut i: usize = 0;
        while i < n
            invariant
                i <= n,
                n == self.orders@.len(),
                total == completed_qty(self.orders@.take(i as int), pid),
            decreases n - i,
        {
            proof {
                lemma_completed_qty_take_step(self.orders@, i as int, pid);
            }
            if self.orders[i].status == OrderStatus::Completed {
                let sub = quantity_in_lines(&self.orders[i].items, pid);
                total = match total.checked_add(sub) {
                    Some(t) => t,
                    None => {
                        proof {
                            lemma_completed_qty_take_le(self.orders@, i as int + 1, pid);
                        }
                        return None;
                    },
                };
            }
            i += 1;
        }
        proof {
            assert(self.orders@.take(n as int) =~= self.orders@);
        }
        Some(total)
    }

    /// A best-selling product: the first product row whose quantity sold
    /// across completed orders no other row beats. `None` where the
    /// catalog is empty or some sum leaves its column.
    pub fn top_product(&self) -> (r: Option<u64>)
        ensures
            r is Some <==> self.products@.len() > 0 && (forall|j: int|
                0 <= j < self.products@.len() ==> completed_qty(
                    self.orders@,
                    (#[trigger] self.products@[j]).id,
                ) <= u128::MAX),
            match r {
                Some(pid) => exists|i: int|
                    {
                        &&& 0 <= i < self.products@.len()
                        &&& (#[trigger] self.products@[i]).id == pid
                        &&& forall|j: int|
                            0 <= j < self.products@.len() ==> completed_qty(
                                self.orders@,
                                (#[trigger] self.products@[j]).id,
                            ) <= completed_qty(self.orders@, self.products@[i].id)
                        &&& forall|j: int|
                            0 <= j < i ==> completed_qty(
                                self.orders@,
                                (#[trigger] self.products@[j]).id,
                            ) < completed_qty(self.orders@, self.products@[i].id)
                    },
                None => true,
            },
    {
        let np = self.products.len();
        if np == 0 {
            return None;
        }
        let mut best_i: usize = 0;
        let mut best_q: u128 = match self.completed_quantity_of(self.products[0].id) {
            Some(q) => q,
            None => {
                return None;
            },
        };
        let mut i: usize = 1;
        while i < np
            invariant
                1 <= i <= np,
                np == self.products@.len(),
                best_i < i,
                best_q == completed_qty(self.orders@, self.products@[best_i as int].id),
                forall|j: int|
                    0 <= j < i ==> completed_qty(
                        self.orders@,
                        (#[trigger] self.products@[j]).id,
                    ) <= best_q,
                forall|j: int|
                    0 <= j < best_i ==> completed_qty(
                        self.orders@,
                        (#[trigger] self.products@[j]).id,
                    ) < best_q,
            decreases np - i,
        {
            let q = match self.completed_quantity_of(self.products[i].id) {
                Some(q) => q,
                None => {
                    return None;
                },
            };
            if q > best_q {
                best_i = i;
                best_q = q;
            }
            i += 1;
        }
        Some(self.products[best_i].id)
    }

    /// The dashboard aggregates, in one verified pass over the tables.
    pub fn analytics(&self) -> (r: Analytics)
        ensures
            r.revenue_completed == completed_revenue(self.orders@),
            r.order_count == self.orders@.len(),
            r.user_count == self.users@.len(),
            r.stats.pending == count_with_status(self.orders@, OrderStatus::Pending),
            r.stats.shipping == count_with_status(self.orders@, OrderStatus::Shipping),
            r.stats.completed == count_with_status(self.orders@, OrderStatus::Completed),
            r.stats.cancelled == count_with_status(self.orders@, OrderStatus::Cancelled),
            r.stats.returned == count_with_status(self.orders@, OrderStatus::Returned),
    {
        let n = self.orders.len();
        let mut revenue: u128 = 0;
        let mut pending: u64 = 0;
        let mut shipping: u64 = 0;
        let mut completed: u64 = 0;
        let mut cancelled: u64 = 0;
        let mut returned: u64 = 0;
        let mut i: usize = 0;
        while i < n
            invariant
                i <= n,
                n == self.orders@.len(),
                revenue == completed_revenue(self.orders@.take(i as int)),
                revenue <= (i as int) * (u64::MAX as int),
                pending == count_with_status(self.orders@.take(i as int), OrderStatus::Pending),
                pending <= i,
                shipping == count_with_status(self.orders@.take(i as int), OrderStatus::Shipping),
                shipping <= i,
                completed == count_with_status(
                    self.orders@.take(i as int),
                    OrderStatus::Completed,
                ),
                completed <= i,
                cancelled == count_with_status(
                    self.orders@.take(i as int),
                    OrderStatus::Cancelled,
                ),
                cancelled <= i,
                returned == count_with_status(self.orders@.take(i as int), OrderStatus::Returned),
                returned <= i,
            decreases n - i,
        {
            proof {
                lemma_revenue_take_step(self.orders@, i as int);
                lemma_count_take_step(self.orders@, i as int, OrderStatus::Pending);
                lemma_count_take_step(self.orders@, i as int, OrderStatus::Shipping);
                lemma_count_take_step(self.orders@, i as int, OrderStatus::Completed);
                lemma_count_take_step(self.orders@, i as int, OrderStatus::Cancelled);
                lemma_count_take_step(self.orders@, i as int, OrderStatus::Returned);
                assert((i as int) * (u64::MAX as int) + (u64::MAX as int) == (i as int + 1) * (
                u64::MAX as int)) by (nonlinear_arith);
                assert((i as int + 1) * (u64::MAX as int) <= u128::MAX as int) by (nonlinear_arith)
                    requires
                        0 <= i as int && i as int <= u64::MAX as int,
                ;
            }
            let o = &self.orders[i];
            match o.status {
                OrderStatus::Pending => {
                    pending += 1;
                },
                OrderStatus::Shipping => {
                    shipping += 1;
                },
                OrderStatus::Completed => {
                    completed += 1;
                    revenue += o.final_amount as u128;
                },
                OrderStatus::Cancelled => {
                    cancelled += 1;
                },
                OrderStatus::Returned => {
                    returned += 1;
                },
            }
            i += 1;
        }
        proof {
            assert(self.orders@.take(n as int) =~= self.orders@);
        }
        Analytics {
            revenue_completed: revenue,
            order_count: n as u64,
            user_count: self.users.len() as u64,
            stats: OrderStatusStats { pending, shipping, completed, cancelled, returned },
        }
    }
}

} // verus!
