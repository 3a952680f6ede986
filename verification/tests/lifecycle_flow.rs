use bookshop::admin::AdminUser;
use bookshop::errors::OrderError;
use bookshop::lifecycle::OrderNotice;
use bookshop::status::OrderStatus;
use bookshop::store::{ShippingInfo, Store};

const DAY: i64 = 86400;

fn shipping_info() -> ShippingInfo {
    ShippingInfo {
        name: String::from("An"),
        phone: String::from("0900000000"),
        address: String::from("12 Nguyen Trai"),
        note: None,
    }
}

/// A store with one admin, one customer, and two products:
/// "Algebra" (list 50000, stock 10) and "Biology" (list 40000 but on sale
/// for 30000, stock 5).
fn seeded() -> (Store, u64, u64, u64, u64) {
    let mut s = Store::new();
    let admin_id = s.add_user(String::from("admin@example.com"), true).unwrap();
    let user_id = s.add_user(String::from("user@example.com"), false).unwrap();
    let tok = AdminUser(admin_id);
    let cat = s.create_category(&tok, String::from("Textbooks")).unwrap();
    let prod_a = s
        .create_product(&tok, String::from("Algebra"), cat, 50000, None, 10)
        .unwrap();
    let prod_b = s
        .create_product(&tok, String::from("Biology"), cat, 40000, Some(30000), 5)
        .unwrap();
    (s, admin_id, user_id, prod_a, prod_b)
}

fn stock_of(s: &Store, pid: u64) -> i64 {
    let i = s.find_product(pid).unwrap();
    s.products[i].stock
}

fn points_of(s: &Store, uid: u64) -> u64 {
    let i = s.find_user(uid).unwrap();
    s.users[i].points
}

#[test]
fn checkout_totals_points_and_stock() {
    let (mut s, _admin, user, a, b) = seeded();
    s.add_to_cart(user, a, 2).unwrap();
    s.add_to_cart(user, b, 1).unwrap();
    let oid = s.checkout(user, shipping_info(), None, 1000).unwrap();
    let oi = s.find_order(oid).unwrap();
    assert_eq!(s.orders[oi].total_amount, 130000);
    assert_eq!(s.orders[oi].final_amount, 130000);
    assert_eq!(s.orders[oi].points_earned, 130);
    assert_eq!(s.orders[oi].status, OrderStatus::Pending);
    assert_eq!(s.orders[oi].payment_method, String::from("cod"));
    assert_eq!(s.orders[oi].created_at, 1000);
    assert_eq!(s.orders[oi].items.len(), 2);
    assert_eq!(s.orders[oi].items[0].price, 50000);
    assert_eq!(s.orders[oi].items[0].quantity, 2);
    assert_eq!(s.orders[oi].items[1].price, 30000);
    assert_eq!(s.orders[oi].items[1].quantity, 1);
    assert_eq!(stock_of(&s, a), 8);
    assert_eq!(stock_of(&s, b), 4);
    assert!(s.cart.is_empty());
    // Points are only earned, never yet credited, at creation.
    assert_eq!(points_of(&s, user), 0);
}

#[test]
fn checkout_empty_cart_rejected() {
    let (mut s, _admin, user, a, _b) = seeded();
    let r = s.checkout(user, shipping_info(), None, 1000);
    assert_eq!(r, Err(OrderError::EmptyCart));
    assert!(s.orders.is_empty());
    assert_eq!(stock_of(&s, a), 10);
}

#[test]
fn checkout_unknown_user_not_found() {
    let (mut s, _admin, _user, _a, _b) = seeded();
    let r = s.checkout(99, shipping_info(), None, 1000);
    assert_eq!(r, Err(OrderError::NotFound));
    assert!(s.orders.is_empty());
}

#[test]
fn checkout_amount_overflow_aborts_whole_unit() {
    let (mut s, admin, user, _a, _b) = seeded();
    let tok = AdminUser(admin);
    let pricey = s
        .create_product(&tok, String::from("Rarity"), 2, u64::MAX, None, 3)
        .unwrap();
    s.add_to_cart(user, pricey, 2).unwrap();
    let r = s.checkout(user, shipping_info(), None, 1000);
    assert_eq!(r, Err(OrderError::StorageFailure));
    assert!(s.orders.is_empty());
    assert_eq!(stock_of(&s, pricey), 3);
    assert_eq!(s.cart.len(), 1);
}

#[test]
fn cancel_pending_restores_stock() {
    let (mut s, _admin, user, a, b) = seeded();
    s.add_to_cart(user, a, 2).unwrap();
    s.add_to_cart(user, b, 1).unwrap();
    let oid = s.checkout(user, shipping_info(), None, 1000).unwrap();
    assert_eq!(stock_of(&s, a), 8);
    let r = s.cancel_order(user, oid);
    assert!(matches!(r, Ok(None)));
    assert_eq!(stock_of(&s, a), 10);
    assert_eq!(stock_of(&s, b), 5);
    let oi = s.find_order(oid).unwrap();
    assert_eq!(s.orders[oi].status, OrderStatus::Cancelled);
}

#[test]
fn cancel_non_pending_rejected_and_stock_unchanged() {
    let (mut s, admin, user, a, _b) = seeded();
    s.add_to_cart(user, a, 2).unwrap();
    let oid = s.checkout(user, shipping_info(), None, 1000).unwrap();
    s.update_order_status(admin, oid, OrderStatus::Shipping).unwrap();
    let r = s.cancel_order(user, oid);
    assert!(matches!(r, Err(OrderError::InvalidTransition)));
    assert_eq!(stock_of(&s, a), 8);
    let oi = s.find_order(oid).unwrap();
    assert_eq!(s.orders[oi].status, OrderStatus::Shipping);
}

#[test]
fn cancel_foreign_order_answered_not_found() {
    let (mut s, _admin, user, a, _b) = seeded();
    let other = s.add_user(String::from("other@example.com"), false).unwrap();
    s.add_to_cart(user, a, 1).unwrap();
    let oid = s.checkout(user, shipping_info(), None, 1000).unwrap();
    let r = s.cancel_order(other, oid);
    assert!(matches!(r, Err(OrderError::NotFound)));
    assert_eq!(stock_of(&s, a), 9);
}

#[test]
fn receive_cod_requires_admin_confirmation() {
    let (mut s, admin, user, a, _b) = seeded();
    s.add_to_cart(user, a, 1).unwrap();
    let oid = s.checkout(user, shipping_info(), None, 1000).unwrap();
    s.update_order_status(admin, oid, OrderStatus::Shipping).unwrap();
    let r = s.receive_order(user, oid);
    assert!(matches!(r, Err(OrderError::PaymentPending)));
    assert_eq!(points_of(&s, user), 0);
    let oi = s.find_order(oid).unwrap();
    assert_eq!(s.orders[oi].status, OrderStatus::Shipping);
}

#[test]
fn receive_credits_points_exactly_once() {
    let (mut s, admin, user, a, b) = seeded();
    s.add_to_cart(user, a, 2).unwrap();
    s.add_to_cart(user, b, 1).unwrap();
    let oid = s
        .checkout(user, shipping_info(), Some(String::from("bank")), 1000)
        .unwrap();
    s.update_order_status(admin, oid, OrderStatus::Shipping).unwrap();
    let r = s.receive_order(user, oid);
    match r {
        Ok(Some(OrderNotice::Completion { email, order_id, points })) => {
            assert_eq!(email, String::from("user@example.com"));
            assert_eq!(order_id, oid);
            assert_eq!(points, 130);
        }
        _ => panic!("expected a completion notice"),
    }
    assert_eq!(points_of(&s, user), 130);
    let oi = s.find_order(oid).unwrap();
    assert_eq!(s.orders[oi].status, OrderStatus::Completed);
    // A second confirmation finds the order no longer shipping.
    let again = s.receive_order(user, oid);
    assert!(matches!(again, Err(OrderError::InvalidTransition)));
    assert_eq!(points_of(&s, user), 130);
}

#[test]
fn return_accepted_at_seven_day_boundary() {
    let (mut s, admin, user, a, _b) = seeded();
    s.add_to_cart(user, a, 2).unwrap();
    let oid = s
        .checkout(user, shipping_info(), Some(String::from("bank")), 1000)
        .unwrap();
    s.update_order_status(admin, oid, OrderStatus::Shipping).unwrap();
    s.receive_order(user, oid).unwrap();
    assert_eq!(points_of(&s, user), 100);
    let r = s.return_order(user, oid, 1000 + 7 * DAY);
    assert!(matches!(r, Ok(None)));
    assert_eq!(stock_of(&s, a), 10);
    assert_eq!(points_of(&s, user), 0);
    let oi = s.find_order(oid).unwrap();
    assert_eq!(s.orders[oi].status, OrderStatus::Returned);
}

#[test]
fn return_rejected_from_day_eight() {
    let (mut s, admin, user, a, _b) = seeded();
    s.add_to_cart(user, a, 2).unwrap();
    let oid = s
        .checkout(user, shipping_info(), Some(String::from("bank")), 1000)
        .unwrap();
    s.update_order_status(admin, oid, OrderStatus::Shipping).unwrap();
    s.receive_order(user, oid).unwrap();
    let r = s.return_order(user, oid, 1000 + 8 * DAY);
    assert!(matches!(r, Err(OrderError::Expired)));
    assert_eq!(stock_of(&s, a), 8);
    assert_eq!(points_of(&s, user), 100);
    let oi = s.find_order(oid).unwrap();
    assert_eq!(s.orders[oi].status, OrderStatus::Completed);
}

#[test]
fn return_of_uncompleted_order_rejected() {
    let (mut s, _admin, user, a, _b) = seeded();
    s.add_to_cart(user, a, 1).unwrap();
    let oid = s.checkout(user, shipping_info(), None, 1000).unwrap();
    let r = s.return_order(user, oid, 2000);
    assert!(matches!(r, Err(OrderError::InvalidTransition)));
}

#[test]
fn replay_of_same_status_applies_no_second_delta() {
    let (mut s, admin, user, a, _b) = seeded();
    s.add_to_cart(user, a, 2).unwrap();
    let oid = s.checkout(user, shipping_info(), None, 1000).unwrap();
    let r1 = s.update_order_status(admin, oid, OrderStatus::Completed);
    assert!(matches!(r1, Ok(Some(OrderNotice::Completion { .. }))));
    assert_eq!(points_of(&s, user), 100);
    // Replaying the very same target must not credit again nor notify.
    let r2 = s.update_order_status(admin, oid, OrderStatus::Completed);
    assert!(matches!(r2, Ok(None)));
    assert_eq!(points_of(&s, user), 100);
    assert_eq!(stock_of(&s, a), 8);
}

#[test]
fn admin_flip_back_to_pending_debits_points() {
    let (mut s, admin, user, a, _b) = seeded();
    s.add_to_cart(user, a, 2).unwrap();
    let oid = s.checkout(user, shipping_info(), None, 1000).unwrap();
    s.update_order_status(admin, oid, OrderStatus::Completed).unwrap();
    assert_eq!(points_of(&s, user), 100);
    s.update_order_status(admin, oid, OrderStatus::Pending).unwrap();
    assert_eq!(points_of(&s, user), 0);
    // Stock was never credited on this path.
    assert_eq!(stock_of(&s, a), 8);
}

#[test]
fn points_debit_floors_at_zero() {
    let (mut s, admin, user, a, _b) = seeded();
    s.add_to_cart(user, a, 2).unwrap();
    let oid = s.checkout(user, shipping_info(), None, 1000).unwrap();
    s.update_order_status(admin, oid, OrderStatus::Completed).unwrap();
    // The balance has meanwhile been spent down below the earned points.
    let ui = s.find_user(user).unwrap();
    s.users[ui].points = 10;
    s.update_order_status(admin, oid, OrderStatus::Pending).unwrap();
    assert_eq!(points_of(&s, user), 0);
}

#[test]
fn admin_status_write_requires_the_role() {
    let (mut s, _admin, user, a, _b) = seeded();
    s.add_to_cart(user, a, 1).unwrap();
    let oid = s.checkout(user, shipping_info(), None, 1000).unwrap();
    let r = s.update_order_status(user, oid, OrderStatus::Shipping);
    assert!(matches!(r, Err(OrderError::Forbidden)));
    let r2 = s.update_order_status(12345, oid, OrderStatus::Shipping);
    assert!(matches!(r2, Err(OrderError::NotFound)));
    let oi = s.find_order(oid).unwrap();
    assert_eq!(s.orders[oi].status, OrderStatus::Pending);
}

#[test]
fn shipping_transition_carries_the_notice_data() {
    let (mut s, admin, user, a, b) = seeded();
    s.add_to_cart(user, a, 2).unwrap();
    s.add_to_cart(user, b, 1).unwrap();
    let oid = s.checkout(user, shipping_info(), None, 1000).unwrap();
    let r = s.update_order_status(admin, oid, OrderStatus::Shipping);
    match r {
        Ok(Some(OrderNotice::Shipping { email, order_id, lines, total })) => {
            assert_eq!(email, String::from("user@example.com"));
            assert_eq!(order_id, oid);
            assert_eq!(total, 130000);
            assert_eq!(lines.len(), 2);
            assert_eq!(lines[0].name, String::from("Algebra"));
            assert_eq!(lines[0].quantity, 2);
            assert_eq!(lines[0].price, 50000);
            assert_eq!(lines[1].name, String::from("Biology"));
            assert_eq!(lines[1].price, 30000);
        }
        _ => panic!("expected a shipping notice"),
    }
}

#[test]
fn interleaved_cancel_and_checkout_leave_same_stock() {
    // The same two committed units, in either serialization order, leave
    // every stock at its old value plus the sum of the deltas.
    let run = |cancel_first: bool| -> (i64, i64) {
        let (mut s, _admin, user, a, b) = seeded();
        let other = s.add_user(String::from("other@example.com"), false).unwrap();
        s.add_to_cart(user, a, 3).unwrap();
        let first = s.checkout(user, shipping_info(), None, 1000).unwrap();
        s.add_to_cart(other, a, 2).unwrap();
        s.add_to_cart(other, b, 1).unwrap();
        if cancel_first {
            s.cancel_order(user, first).unwrap();
            s.checkout(other, shipping_info(), None, 2000).unwrap();
        } else {
            s.checkout(other, shipping_info(), None, 2000).unwrap();
            s.cancel_order(user, first).unwrap();
        }
        (stock_of(&s, a), stock_of(&s, b))
    };
    let one = run(true);
    let two = run(false);
    assert_eq!(one, two);
    assert_eq!(one, (8, 4));
}

#[test]
fn return_now_refuses_an_ancient_order() {
    let (mut s, admin, user, a, _b) = seeded();
    s.add_to_cart(user, a, 1).unwrap();
    // Created at the epoch: the seven-day window has long closed.
    let oid = s
        .checkout(user, shipping_info(), Some(String::from("bank")), 0)
        .unwrap();
    s.update_order_status(admin, oid, OrderStatus::Completed).unwrap();
    let r = s.return_order_now(user, oid);
    assert!(matches!(r, Err(OrderError::Expired)));
}

#[test]
fn return_now_accepts_a_fresh_order() {
    let (mut s, admin, user, a, _b) = seeded();
    s.add_to_cart(user, a, 1).unwrap();
    // Created in the far future: the window cannot have closed yet.
    let oid = s
        .checkout(user, shipping_info(), Some(String::from("bank")), i64::MAX / 2)
        .unwrap();
    s.update_order_status(admin, oid, OrderStatus::Completed).unwrap();
    let r = s.return_order_now(user, oid);
    assert!(matches!(r, Ok(None)));
    assert_eq!(stock_of(&s, a), 10);
}
