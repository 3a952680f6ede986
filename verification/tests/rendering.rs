use bookshop::catalog::{
    build_products_query, get_payment_config, update_settings, ProductFilter, SettingItem,
    UpdateSettingReq,
};
use bookshop::status::effects;
use bookshop::email::{
    format_money, items_rows_html, send_order_shipping_email, send_order_thank_you_email,
    u64_to_dec,
};
use bookshop::lifecycle::NoticeLine;
use bookshop::status::{parse_status, status_name, OrderStatus};
use bookshop::upload::storage_public_url;

#[test]
fn decimal_text_of_numbers() {
    assert_eq!(u64_to_dec(0), String::from("0"));
    assert_eq!(u64_to_dec(7), String::from("7"));
    assert_eq!(u64_to_dec(130), String::from("130"));
    assert_eq!(u64_to_dec(1000000), String::from("1000000"));
    assert_eq!(u64_to_dec(u64::MAX), String::from("18446744073709551615"));
}

#[test]
fn money_is_grouped_in_threes() {
    assert_eq!(format_money(0), String::from("0 đ"));
    assert_eq!(format_money(999), String::from("999 đ"));
    assert_eq!(format_money(1000), String::from("1,000 đ"));
    assert_eq!(format_money(130000), String::from("130,000 đ"));
    assert_eq!(format_money(1234567), String::from("1,234,567 đ"));
}

#[test]
fn notice_rows_render_each_line() {
    let lines = vec![
        NoticeLine { name: String::from("Algebra"), quantity: 2, price: 50000 },
        NoticeLine { name: String::from("Biology"), quantity: 1, price: 30000 },
    ];
    let rows = items_rows_html(&lines);
    assert_eq!(
        rows,
        String::from(
            "<tr><td>Algebra</td><td>2</td><td>50,000 đ</td></tr><tr><td>Biology</td><td>1</td><td>30,000 đ</td></tr>"
        )
    );
}

#[test]
fn shipping_email_carries_order_rows_and_total() {
    let lines = vec![NoticeLine { name: String::from("Algebra"), quantity: 2, price: 50000 }];
    let rows = items_rows_html(&lines);
    let m = send_order_shipping_email(
        String::from("user@example.com"),
        12,
        rows.clone(),
        format_money(100000),
    );
    assert_eq!(m.to, String::from("user@example.com"));
    assert_eq!(m.subject, String::from("📚 Đơn sách #12 đang được vận chuyển!"));
    let expected = format!(
        "<html><body><div><h2>Giáo Trình Online - Thông Báo Vận Chuyển</h2><p>Đơn hàng giáo trình <b>#12</b> của bạn đã được đóng gói và bàn giao cho đơn vị vận chuyển.</p><table><tbody>{}</tbody></table><div>Tổng thanh toán: 100,000 đ</div><p>Vui lòng chú ý điện thoại để nhận sách nhé!</p><p>BookShop Team</p></div></body></html>",
        rows
    );
    assert_eq!(m.body_html, expected);
}

#[test]
fn thank_you_email_names_order_and_points() {
    let m = send_order_thank_you_email(String::from("user@example.com"), 7, 130);
    assert_eq!(m.to, String::from("user@example.com"));
    assert_eq!(m.subject, String::from("✅ Cảm ơn bạn đã mua sách (Đơn #7)"));
    assert_eq!(
        m.body_html,
        String::from(
            "<div><h2>Giao sách thành công!</h2><p>Cảm ơn bạn đã xác nhận nhận thành công đơn <b>#7</b>.</p><p>🎉 Bạn đã được tích lũy +130 điểm thưởng.</p><p>Chúc bạn học tập tốt và đạt kết quả cao!</p><p>BookShop Team</p></div>"
        )
    );
}

const LISTING_BASE: &str = "SELECT p.id, p.category_id, c.name as category_name, p.name, p.author, p.publisher, p.publication_year, p.price, p.sale_price, p.stock, CASE WHEN JSON_VALID(p.images) THEN JSON_UNQUOTE(JSON_EXTRACT(p.images, '$[0]')) ELSE p.image END as image, p.images, p.description, p.specs, p.rating, p.review_count FROM products p LEFT JOIN categories c ON p.category_id = c.id WHERE p.is_deleted = 0";

#[test]
fn listing_query_without_filters_sorts_by_newest() {
    let f = ProductFilter { category_id: None, search: None, sort: None };
    let (sql, args) = build_products_query(&f);
    assert_eq!(sql, format!("{} ORDER BY p.created_at DESC", LISTING_BASE));
    assert!(args.is_empty());
}

#[test]
fn listing_query_treats_all_as_no_category() {
    let f = ProductFilter {
        category_id: Some(String::from("all")),
        search: Some(String::from("")),
        sort: Some(String::from("newest")),
    };
    let (sql, args) = build_products_query(&f);
    assert_eq!(sql, format!("{} ORDER BY p.created_at DESC", LISTING_BASE));
    assert!(args.is_empty());
}

#[test]
fn listing_query_binds_category_and_search_in_order() {
    let f = ProductFilter {
        category_id: Some(String::from("5")),
        search: Some(String::from("math")),
        sort: Some(String::from("price_asc")),
    };
    let (sql, args) = build_products_query(&f);
    assert_eq!(
        sql,
        format!(
            "{} AND p.category_id = ? AND (p.name LIKE ? OR p.author LIKE ?) ORDER BY COALESCE(p.sale_price, p.price) ASC",
            LISTING_BASE
        )
    );
    assert_eq!(args, vec![
        String::from("5"),
        String::from("%math%"),
        String::from("%math%")
    ]);
}

#[test]
fn listing_query_sorts_by_price_descending() {
    let f = ProductFilter {
        category_id: None,
        search: None,
        sort: Some(String::from("price_desc")),
    };
    let (sql, _args) = build_products_query(&f);
    assert_eq!(
        sql,
        format!("{} ORDER BY COALESCE(p.sale_price, p.price) DESC", LISTING_BASE)
    );
}

#[test]
fn upload_path_joins_prefix_name_and_file() {
    let url = storage_public_url("k9f2", "cover.jpg");
    assert_eq!(url, String::from("/storages/k9f2_cover.jpg"));
}

#[test]
fn effect_table_matches_the_state_machine() {
    let ship = effects(OrderStatus::Pending, OrderStatus::Shipping);
    assert!(ship.notify_shipping && !ship.credit_points && !ship.credit_stock);
    let complete = effects(OrderStatus::Shipping, OrderStatus::Completed);
    assert!(complete.credit_points && complete.notify_completion && !complete.credit_stock);
    let cancel = effects(OrderStatus::Pending, OrderStatus::Cancelled);
    assert!(cancel.credit_stock && !cancel.credit_points && !cancel.debit_points);
    let ret = effects(OrderStatus::Completed, OrderStatus::Returned);
    assert!(ret.credit_stock && ret.debit_points && !ret.credit_points);
    let replay = effects(OrderStatus::Completed, OrderStatus::Completed);
    assert!(
        !replay.credit_stock
            && !replay.credit_points
            && !replay.debit_points
            && !replay.notify_shipping
            && !replay.notify_completion
    );
}

#[test]
fn settings_upsert_replaces_and_appends() {
    let mut settings = vec![
        SettingItem { id: String::from("hotline"), value: Some(String::from("111")) },
        SettingItem { id: String::from("site_name"), value: Some(String::from("BookShop")) },
    ];
    let req = UpdateSettingReq {
        settings: vec![
            SettingItem { id: String::from("hotline"), value: Some(String::from("222")) },
            SettingItem { id: String::from("bank_name"), value: Some(String::from("VCB")) },
            SettingItem { id: String::from("hotline"), value: Some(String::from("333")) },
        ],
    };
    update_settings(&mut settings, req);
    assert_eq!(settings.len(), 3);
    assert_eq!(settings[0].id, String::from("hotline"));
    assert_eq!(settings[0].value, Some(String::from("333")));
    assert_eq!(settings[1].id, String::from("site_name"));
    assert_eq!(settings[1].value, Some(String::from("BookShop")));
    assert_eq!(settings[2].id, String::from("bank_name"));
    assert_eq!(settings[2].value, Some(String::from("VCB")));
}

#[test]
fn payment_config_keeps_only_its_keys() {
    let settings = vec![
        SettingItem { id: String::from("bank_name"), value: Some(String::from("VCB")) },
        SettingItem { id: String::from("maintenance_banner"), value: Some(String::from("off")) },
        SettingItem { id: String::from("hotline"), value: None },
        SettingItem { id: String::from("site_name"), value: Some(String::from("BookShop")) },
    ];
    let config = get_payment_config(&settings);
    assert_eq!(config.len(), 3);
    assert_eq!(config[0].id, String::from("bank_name"));
    assert_eq!(config[0].value, Some(String::from("VCB")));
    assert_eq!(config[1].id, String::from("hotline"));
    assert_eq!(config[1].value, None);
    assert_eq!(config[2].id, String::from("site_name"));
}

#[test]
fn status_names_round_trip() {
    assert_eq!(status_name(OrderStatus::Pending), "pending");
    assert_eq!(status_name(OrderStatus::Returned), "returned");
    assert_eq!(parse_status(&String::from("pending")), Some(OrderStatus::Pending));
    assert_eq!(parse_status(&String::from("shipping")), Some(OrderStatus::Shipping));
    assert_eq!(parse_status(&String::from("completed")), Some(OrderStatus::Completed));
    assert_eq!(parse_status(&String::from("cancelled")), Some(OrderStatus::Cancelled));
    assert_eq!(parse_status(&String::from("returned")), Some(OrderStatus::Returned));
    assert_eq!(parse_status(&String::from("misplaced")), None);
}
