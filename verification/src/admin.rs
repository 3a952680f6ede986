//! The administrator gate: the one role check every administrative
//! operation passes first.

use vstd::prelude::*;

use crate::errors::OrderError;
use crate::store::{
    cidx, has_category, has_product, has_user, lemma_cidx_of, lemma_pidx_of, lemma_uidx_of, pidx,
    product_of, user_of, Category, Product, Store,
};

verus! {

/// Some product row, deleted or not, still references this category.
pub open spec fn category_in_use(ps: Seq<Product>, cid: u64) -> bool {
    exists|i: int| 0 <= i < ps.len() && ps[i].category_id == cid
}

/// Proof of a passed role check, carrying the administrator's user id.
pub struct AdminUser(pub u64);

/// The decision behind the admin extractor: an unknown caller is refused as
/// `NotFound`, a known caller without the administrator role as `Forbidden`.
pub fn authorize_admin(s: &Store, user_id: u64) -> (r: Result<AdminUser, OrderError>)
    requires
        s.wf(),
    ensures
        r is Ok <==> has_user(s.users@, user_id) && user_of(s.users@, user_id).is_admin,
        match r {
            Ok(a) => a.0 == user_id,
            Err(e) => {
                &&& (e == OrderError::NotFound <==> !has_user(s.users@, user_id))
                &&& (e == OrderError::Forbidden <==> has_user(s.users@, user_id) && !user_of(
                    s.users@,
                    user_id,
                ).is_admin)
            },
        },
{
    let ui = match s.find_user(user_id) {
        Some(i) => i,
        None => {
            return Err(OrderError::NotFound);
        },
    };
    proof {
        lemma_uidx_of(s.users@, ui as int);
    }
    if s.users[ui].is_admin {
        Ok(AdminUser(user_id))
    } else {
        Err(OrderError::Forbidden)
    }
}

impl Store {
    /// Whether any product row still references this category.
    fn any_product_in_category(&self, cid: u64) -> (r: bool)
        ensures
            r == category_in_use(self.products@, cid),
    {
        let n = self.products.len();
        let mut i: usize = 0;
        while i < n
            invariant
                i <= n,
                n == self.products@.len(),
                forall|j: int| 0 <= j < i ==> (#[trigger] self.products@[j]).category_id != cid,
            decreases n - i,
        {
            if self.products[i].category_id == cid {
                return true;
            }
            i += 1;
        }
        false
    }

    /// Create a category with a fresh id.
    pub fn create_category(&mut self, _admin: &AdminUser, name: String) -> (r: Result<
        u64,
        OrderError,
    >)
        requires
            old(self).wf(),
        ensures
            final(self).wf(),
            r is Ok <==> old(self).next_id < u64::MAX,
            match r {
                Ok(cid) => {
                    &&& cid == old(self).next_id
                    &&& final(self).categories@ == old(self).categories@.push(
                        (Category { id: cid, name }),
                    )
                    &&& final(self).next_id == old(self).next_id + 1
                    &&& final(self).products == old(self).products
                    &&& final(self).users == old(self).users
                    &&& final(self).orders == old(self).orders
                    &&& final(self).cart == old(self).cart
                },
                Err(e) => e == OrderError::StorageFailure && *final(self) == *old(self),
            },
    {
        let ghost pre = *self;
        if self.next_id == u64::MAX {
            return Err(OrderError::StorageFailure);
        }
        let cid = self.next_id;
        self.categories.push(Category { id: cid, name });
        self.next_id = self.next_id + 1;
        proof {
            assert forall|i: int| 0 <= i < self.orders@.len() implies self.order_wf(
                #[trigger] self.orders@[i],
            ) by {
                assert(pre.order_wf(pre.orders@[i]));
            }
        }
        Ok(cid)
    }

    /// Remove a category. A category that any product row still references
    /// cannot be removed; the request is refused with `InvalidTransition`
    /// and nothing changes.
    pub fn delete_category(&mut self, _admin: &AdminUser, cat_id: u64) -> (r: Result<
        (),
        OrderError,
    >)
        requires
            old(self).wf(),
        ensures
            final(self).wf(),
            r is Ok <==> has_category(old(self).categories@, cat_id) && !category_in_use(
                old(self).products@,
                cat_id,
            ),
            match r {
                Ok(_) => {
                    &&& final(self).categories@ == old(self).categories@.remove(
                        cidx(old(self).categories@, cat_id),
                    )
                    &&& final(self).products == old(self).products
                    &&& final(self).users == old(self).users
                    &&& final(self).orders == old(self).orders
                    &&& final(self).cart == old(self).cart
                    &&& final(self).next_id == old(self).next_id
                },
                Err(e) => {
                    &&& *final(self) == *old(self)
                    &&& (e == OrderError::NotFound <==> !has_category(
                        old(self).categories@,
                        cat_id,
                    ))
                    &&& (e == OrderError::InvalidTransition <==> has_category(
                        old(self).categories@,
                        cat_id,
                    ) && category_in_use(old(self).products@, cat_id))
                },
            },
    {
        let ghost pre = *self;
        let ci = match self.find_category(cat_id) {
            Some(i) => i,
            None => {
                return Err(OrderError::NotFound);
            },
        };
        proof {
            lemma_cidx_of(self.categories@, ci as int);
        }
        if self.any_product_in_category(cat_id) {
            return Err(OrderError::InvalidTransition);
        }
        self.categories.remove(ci);
        proof {
            assert forall|i: int| 0 <= i < self.orders@.len() implies self.order_wf(
                #[trigger] self.orders@[i],
            ) by {
                assert(pre.order_wf(pre.orders@[i]));
            }
        }
        Ok(())
    }

    /// Create a product row with a fresh id.
    pub fn create_product(
        &mut self,
        _admin: &AdminUser,
        name: String,
        category_id: u64,
        price: u64,
        sale_price: Option<u64>,
        stock: i64,
    ) -> (r: Result<u64, OrderError>)
        requires
            old(self).wf(),
        ensures
            final(self).wf(),
            r is Ok <==> old(self).next_id < u64::MAX,
            match r {
                Ok(pid) => {
                    &&& pid == old(self).next_id
                    &&& final(self).products@ == old(self).products@.push(
                        (Product {
                            id: pid,
                            category_id,
                            name,
                            price,
                            sale_price,
                            stock,
                            is_deleted: false,
                        }),
                    )
                    &&& final(self).next_id == old(self).next_id + 1
                    &&& final(self).users == old(self).users
                    &&& final(self).orders == old(self).orders
                    &&& final(self).cart == old(self).cart
                    &&& final(self).categories == old(self).categories
                },
                Err(e) => e == OrderError::StorageFailure && *final(self) == *old(self),
            },
    {
        let ghost pre = *self;
        if self.next_id == u64::MAX {
            return Err(OrderError::StorageFailure);
        }
        let pid = self.next_id;
        self.products.push(
            Product { id: pid, category_id, name, price, sale_price, stock, is_deleted: false },
        );
        self.next_id = self.next_id + 1;
        proof {
            assert forall|k: u64| has_product(pre.products@, k) implies has_product(
                self.products@,
                k,
            ) by {
                let i = pidx(pre.products@, k);
                assert(self.products@[i].id == k);
            }
            assert forall|i: int| 0 <= i < self.orders@.len() implies self.order_wf(
                #[trigger] self.orders@[i],
            ) by {
                assert(pre.order_wf(pre.orders@[i]));
            }
        }
        Ok(pid)
    }

    /// Overwrite the catalog columns of a product row. The id and the
    /// soft-deletion flag stay; the stock column is an administrative
    /// absolute write, outside the ledger's delta discipline.
    pub fn update_product(
        &mut self,
        _admin: &AdminUser,
        product_id: u64,
        name: String,
        category_id: u64,
        price: u64,
        sale_price: Option<u64>,
        stock: i64,
    ) -> (r: Result<(), OrderError>)
        requires
            old(self).wf(),
        ensures
            final(self).wf(),
            r is Ok <==> has_product(old(self).products@, product_id),
            match r {
                Ok(_) => {
                    &&& final(self).products@ == old(self).products@.update(
                        pidx(old(self).products@, product_id),
                        (Product {
                            id: product_id,
                            category_id,
                            name,
                            price,
                            sale_price,
                            stock,
                            is_deleted: product_of(old(self).products@, product_id).is_deleted,
                        }),
                    )
                    &&& final(self).users == old(self).users
                    &&& final(self).orders == old(self).orders
                    &&& final(self).cart == old(self).cart
                    &&& final(self).categories == old(self).categories
                    &&& final(self).next_id == old(self).next_id
                },
                Err(e) => e == OrderError::NotFound && *final(self) == *old(self),
            },
    {
        let ghost pre = *self;
        let pi = match self.find_product(product_id) {
            Some(i) => i,
            None => {
                return Err(OrderError::NotFound);
            },
        };
        proof {
            lemma_pidx_of(self.products@, pi as int);
        }
        let keep_deleted = self.products[pi].is_deleted;
        self.products[pi] = Product {
            id: product_id,
            category_id,
            name,
            price,
            sale_price,
            stock,
            is_deleted: keep_deleted,
        };
        proof {
            lemma_update_product_wf(pre, *self, pi as int);
        }
        Ok(())
    }

    /// Mark a product row deleted. The row stays, so existing orders keep
    /// their lines; the listing query filters it out.
    pub fn delete_product(&mut self, _admin: &AdminUser, product_id: u64) -> (r: Result<
        (),
        OrderError,
    >)
        requires
            old(self).wf(),
        ensures
            final(self).wf(),
            r is Ok <==> has_product(old(self).products@, product_id),
            match r {
                Ok(_) => {
                    &&& final(self).products@ == old(self).products@.update(
                        pidx(old(self).products@, product_id),
                        (Product {
                            is_deleted: true,
                            ..product_of(old(self).products@, product_id)
                        }),
                    )
                    &&& final(self).users == old(self).users
                    &&& final(self).orders == old(self).orders
                    &&& final(self).cart == old(self).cart
                    &&& final(self).categories == old(self).categories
                    &&& final(self).next_id == old(self).next_id
                },
                Err(e) => e == OrderError::NotFound && *final(self) == *old(self),
            },
    {
        let ghost pre = *self;
        let pi = match self.find_product(product_id) {
            Some(i) => i,
            None => {
                return Err(OrderError::NotFound);
            },
        };
        proof {
            lemma_pidx_of(self.products@, pi as int);
        }
        self.products[pi].is_deleted = true;
        proof {
            lemma_update_product_wf(pre, *self, pi as int);
        }
        Ok(())
    }
}

/// Rewriting one product row without touching its id keeps the store well
/// formed.
proof fn lemma_update_product_wf(pre: Store, post: Store, pi: int)
    requires
        pre.wf(),
        0 <= pi < pre.products@.len(),
        post.products@.len() == pre.products@.len(),
        forall|i: int|
            0 <= i < pre.products@.len() ==> #[trigger] post.products@[i].id == pre.products@[
            i].id,
        post.users == pre.users,
        post.orders == pre.orders,
        post.cart == pre.cart,
        post.categories == pre.categories,
        post.next_id == pre.next_id,
    ensures
        post.wf(),
{
    crate::store::lemma_same_ids_lookup(pre.products@, post.products@);
    assert forall|i: int| 0 <= i < post.orders@.len() implies post.order_wf(
        #[trigger] post.orders@[i],
    ) by {
        assert(pre.order_wf(pre.orders@[i]));
    }
}

} // verus!
