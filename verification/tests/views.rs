use bookshop::admin::{authorize_admin, AdminUser};
use bookshop::errors::OrderError;
use bookshop::status::OrderStatus;
use bookshop::store::{ShippingInfo, Store};

fn delivery() -> ShippingInfo {
    ShippingInfo {
        name: String::from("Binh"),
        phone: String::from("0911111111"),
        address: String::from("3 Le Loi"),
        note: Some(String::from("call first")),
    }
}

fn shop() -> (Store, u64, u64, u64, u64) {
    let mut s = Store::new();
    let admin_id = s.add_user(String::from("boss@example.com"), true).unwrap();
    let user_id = s.add_user(String::from("reader@example.com"), false).unwrap();
    let tok = AdminUser(admin_id);
    let cat = s.create_category(&tok, String::from("Science")).unwrap();
    let prod_a = s
        .create_product(&tok, String::from("Calculus"), cat, 70000, None, 6)
        .unwrap();
    let prod_b = s
        .create_product(&tok, String::from("Chemistry"), cat, 20000, None, 9)
        .unwrap();
    (s, admin_id, user_id, prod_a, prod_b)
}

#[test]
fn authorize_admin_checks_role_and_existence() {
    let (s, admin, user, _a, _b) = shop();
    let ok = authorize_admin(&s, admin).unwrap();
    assert_eq!(ok.0, admin);
    assert!(matches!(authorize_admin(&s, user), Err(OrderError::Forbidden)));
    assert!(matches!(authorize_admin(&s, 777), Err(OrderError::NotFound)));
}

#[test]
fn check_purchase_sees_only_completed_orders() {
    let (mut s, admin, user, a, b) = shop();
    s.add_to_cart(user, a, 1).unwrap();
    let oid = s.checkout(user, delivery(), None, 50).unwrap();
    assert!(!s.check_purchase(user, a));
    s.update_order_status(admin, oid, OrderStatus::Completed).unwrap();
    assert!(s.check_purchase(user, a));
    assert!(!s.check_purchase(user, b));
    assert!(!s.check_purchase(admin, a));
}

#[test]
fn order_detail_joins_names_for_the_owner_only() {
    let (mut s, _admin, user, a, b) = shop();
    s.add_to_cart(user, a, 2).unwrap();
    s.add_to_cart(user, b, 3).unwrap();
    let oid = s.checkout(user, delivery(), None, 50).unwrap();
    let lines = s.order_detail(user, oid).unwrap();
    assert_eq!(lines.len(), 2);
    assert_eq!(lines[0].name, String::from("Calculus"));
    assert_eq!(lines[0].quantity, 2);
    assert_eq!(lines[0].price, 70000);
    assert_eq!(lines[1].name, String::from("Chemistry"));
    assert_eq!(lines[1].quantity, 3);
    assert_eq!(lines[1].price, 20000);
    let other = s.add_user(String::from("nosy@example.com"), false).unwrap();
    assert!(matches!(s.order_detail(other, oid), Err(OrderError::NotFound)));
    assert!(matches!(s.order_detail(user, 424242), Err(OrderError::NotFound)));
}

#[test]
fn my_orders_lists_own_orders_newest_first() {
    let (mut s, _admin, user, a, b) = shop();
    let other = s.add_user(String::from("second@example.com"), false).unwrap();
    s.add_to_cart(user, a, 1).unwrap();
    let first = s.checkout(user, delivery(), None, 100).unwrap();
    s.add_to_cart(other, b, 1).unwrap();
    let foreign = s.checkout(other, delivery(), None, 150).unwrap();
    s.add_to_cart(user, b, 2).unwrap();
    let second = s
        .checkout(user, delivery(), Some(String::from("bank")), 200)
        .unwrap();
    let rows = s.my_orders(user);
    assert_eq!(rows.len(), 2);
    assert_eq!(rows[0].id, second);
    assert_eq!(rows[0].final_amount, 40000);
    assert_eq!(rows[0].points_earned, 40);
    assert_eq!(rows[0].payment_method, String::from("bank"));
    assert_eq!(rows[0].created_at, 200);
    assert_eq!(rows[1].id, first);
    assert!(rows.iter().all(|r| r.id != foreign));
}

#[test]
fn analytics_counts_statuses_and_revenue() {
    let (mut s, admin, user, a, b) = shop();
    s.add_to_cart(user, a, 1).unwrap();
    let o1 = s.checkout(user, delivery(), None, 10).unwrap();
    s.add_to_cart(user, b, 1).unwrap();
    let o2 = s.checkout(user, delivery(), None, 20).unwrap();
    s.add_to_cart(user, b, 2).unwrap();
    let o3 = s.checkout(user, delivery(), None, 30).unwrap();
    s.update_order_status(admin, o1, OrderStatus::Completed).unwrap();
    s.update_order_status(admin, o2, OrderStatus::Completed).unwrap();
    let _ = s.cancel_order(user, o3).unwrap();
    let report = s.analytics();
    assert_eq!(report.order_count, 3);
    assert_eq!(report.user_count, 2);
    assert_eq!(report.revenue_completed, 90000);
    assert_eq!(report.stats.pending, 0);
    assert_eq!(report.stats.shipping, 0);
    assert_eq!(report.stats.completed, 2);
    assert_eq!(report.stats.cancelled, 1);
    assert_eq!(report.stats.returned, 0);
}

#[test]
fn top_product_is_the_first_best_seller() {
    let (mut s, admin, user, a, b) = shop();
    assert_eq!(s.top_product(), Some(a));
    assert_eq!(s.completed_quantity_of(a), Some(0));
    s.add_to_cart(user, a, 1).unwrap();
    let o1 = s.checkout(user, delivery(), None, 10).unwrap();
    s.add_to_cart(user, b, 3).unwrap();
    let o2 = s.checkout(user, delivery(), None, 20).unwrap();
    // Only completed orders count.
    assert_eq!(s.top_product(), Some(a));
    s.update_order_status(admin, o2, OrderStatus::Completed).unwrap();
    assert_eq!(s.top_product(), Some(b));
    assert_eq!(s.completed_quantity_of(b), Some(3));
    s.update_order_status(admin, o1, OrderStatus::Completed).unwrap();
    assert_eq!(s.completed_quantity_of(a), Some(1));
    assert_eq!(s.top_product(), Some(b));
    assert_eq!(Store::new().top_product(), None);
}

#[test]
fn cart_line_is_replaced_not_duplicated() {
    let (mut s, _admin, user, a, _b) = shop();
    s.add_to_cart(user, a, 1).unwrap();
    s.add_to_cart(user, a, 4).unwrap();
    assert_eq!(s.cart.len(), 1);
    assert_eq!(s.cart[0].quantity, 4);
    assert!(matches!(s.add_to_cart(user, a, 0), Err(OrderError::InvalidTransition)));
    assert!(matches!(s.add_to_cart(user, 999, 1), Err(OrderError::NotFound)));
    assert!(matches!(s.add_to_cart(999, a, 1), Err(OrderError::NotFound)));
}

#[test]
fn category_with_products_cannot_be_deleted() {
    let (mut s, admin, _user, _a, _b) = shop();
    let tok = AdminUser(admin);
    let used = s.categories[0].id;
    assert!(matches!(
        s.delete_category(&tok, used),
        Err(OrderError::InvalidTransition)
    ));
    let empty = s.create_category(&tok, String::from("Maps")).unwrap();
    assert!(s.delete_category(&tok, empty).is_ok());
    assert!(s.find_category(empty).is_none());
    assert!(matches!(
        s.delete_category(&tok, 31337),
        Err(OrderError::NotFound)
    ));
}

#[test]
fn soft_deleted_product_keeps_old_orders_whole() {
    let (mut s, admin, user, a, _b) = shop();
    s.add_to_cart(user, a, 1).unwrap();
    let oid = s.checkout(user, delivery(), None, 10).unwrap();
    let tok = AdminUser(admin);
    s.delete_product(&tok, a).unwrap();
    let i = s.find_product(a).unwrap();
    assert!(s.products[i].is_deleted);
    let lines = s.order_detail(user, oid).unwrap();
    assert_eq!(lines[0].name, String::from("Calculus"));
}

#[test]
fn update_product_rewrites_catalog_columns() {
    let (mut s, admin, _user, a, _b) = shop();
    let tok = AdminUser(admin);
    s.update_product(&tok, a, String::from("Calculus II"), 2, 80000, Some(60000), 12)
        .unwrap();
    let i = s.find_product(a).unwrap();
    assert_eq!(s.products[i].name, String::from("Calculus II"));
    assert_eq!(s.products[i].price, 80000);
    assert_eq!(s.products[i].sale_price, Some(60000));
    assert_eq!(s.products[i].stock, 12);
    assert_eq!(s.products[i].id, a);
    assert!(matches!(
        s.update_product(&tok, 5555, String::from("x"), 2, 1, None, 1),
        Err(OrderError::NotFound)
    ));
}

#[test]
fn captured_price_survives_later_price_changes() {
    let (mut s, admin, user, a, _b) = shop();
    s.add_to_cart(user, a, 1).unwrap();
    let oid = s.checkout(user, delivery(), None, 10).unwrap();
    let tok = AdminUser(admin);
    s.update_product(&tok, a, String::from("Calculus"), 2, 99000, None, 6)
        .unwrap();
    let oi = s.find_order(oid).unwrap();
    assert_eq!(s.orders[oi].items[0].price, 70000);
    assert_eq!(s.orders[oi].final_amount, 70000);
}
