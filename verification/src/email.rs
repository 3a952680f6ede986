//! Verified composition of the two transactional emails. Building the
//! subject and body is exact string work and is proved here; handing the
//! finished message to a mail relay is left to the caller.

use vstd::prelude::*;
use vstd::string::{StrSliceExecFns, StringExecFns};

use vstd::pervasive::unreached;

use crate::lifecycle::NoticeLine;

verus! {

/// A composed message, ready for whatever transport delivers it.
pub struct EmailMessage {
    pub to: String,
    pub subject: String,
    pub body_html: String,
}

// ---------------------------------------------------------------------------
// Decimal text.
// ---------------------------------------------------------------------------

/// The decimal digit character for one digit value.
pub open spec fn dec_digit(d: int) -> char {
    if d == 0 {
        '0'
    } else if d == 1 {
        '1'
    } else if d == 2 {
        '2'
    } else if d == 3 {
        '3'
    } else if d == 4 {
        '4'
    } else if d == 5 {
        '5'
    } else if d == 6 {
        '6'
    } else if d == 7 {
        '7'
    } else if d == 8 {
        '8'
    } else {
        '9'
    }
}

/// The decimal text of a non-negative number, most significant digit
/// first, without leading zeroes (a single zero for 0).
pub open spec fn dec_str(n: int) -> Seq<char>
    decreases n,
{
    if n < 10 {
        seq![dec_digit(n)]
    } else {
        dec_str(n / 10).push(dec_digit(n % 10))
    }
}

/// One decimal digit as text.
fn digit_str(d: u64) -> (s: &'static str)
    requires
        d < 10,
    ensures
        s@ == seq![dec_digit(d as int)],
{
    proof {
        reveal_strlit("0");
        reveal_strlit("1");
        reveal_strlit("2");
        reveal_strlit("3");
        reveal_strlit("4");
        reveal_strlit("5");
        reveal_strlit("6");
        reveal_strlit("7");
        reveal_strlit("8");
        reveal_strlit("9");
    }
    match d {
        0 => "0",
        1 => "1",
        2 => "2",
        3 => "3",
        4 => "4",
        5 => "5",
        6 => "6",
        7 => "7",
        8 => "8",
        9 => "9",
        _ => unreached(),
    }
}

/// Decimal text of `n`.
pub fn u64_to_dec(n: u64) -> (s: String)
    ensures
        s@ == dec_str(n as int),
    decreases n,
{
    if n < 10 {
        let s = String::from_str(digit_str(n));
        proof {
            assert(s@ =~= dec_str(n as int));
        }
        s
    } else {
        let mut s = u64_to_dec(n / 10);
        s.append(digit_str(n % 10));
        proof {
            assert(s@ =~= dec_str(n as int));
        }
        s
    }
}

// ---------------------------------------------------------------------------
// Money text: decimal digits grouped in threes, and the currency mark.
// ---------------------------------------------------------------------------

/// Digit text with a comma before each group of three from the right.
pub open spec fn grouped(digits: Seq<char>) -> Seq<char>
    decreases digits.len(),
{
    if digits.len() <= 3 {
        digits
    } else {
        grouped(digits.take(digits.len() - 3)) + seq![','] + digits.skip(digits.len() - 3)
    }
}

/// The displayed form of an amount: grouped digits and the currency mark.
pub open spec fn money_text(amount: int) -> Seq<char> {
    grouped(dec_str(amount)) + " đ"@
}

/// Insert a comma before each group of three characters from the right.
fn group_thousands(s: &str) -> (r: String)
    ensures
        r@ == grouped(s@),
    decreases s@.len(),
{
    let n = s.unicode_len();
    if n <= 3 {
        String::from_str(s)
    } else {
        let head = s.substring_char(0, n - 3);
        let tail = s.substring_char(n - 3, n);
        let mut r = group_thousands(head);
        proof {
            reveal_strlit(",");
            assert(","@ =~= seq![',']);
            assert(head@ =~= s@.take(n - 3));
            assert(tail@ =~= s@.skip(n - 3));
        }
        r.append(",");
        r.append(tail);
        proof {
            assert(r@ =~= grouped(s@));
        }
        r
    }
}

/// The displayed form of an amount in minor currency units.
pub fn format_money(amount: u64) -> (r: String)
    ensures
        r@ == money_text(amount as int),
{
    let digits = u64_to_dec(amount);
    let mut r = group_thousands(digits.as_str());
    r.append(" đ");
    r
}

// ---------------------------------------------------------------------------
// The table rows of a shipping notice.
// ---------------------------------------------------------------------------

/// One row: the product's name, the quantity, and the unit price as money.
pub open spec fn notice_row(l: NoticeLine) -> Seq<char> {
    "<tr><td>"@ + l.name@ + "</td><td>"@ + dec_str(l.quantity as int) + "</td><td>"@ + money_text(
        l.price as int,
    ) + "</td></tr>"@
}

/// All rows, in line order.
pub open spec fn notice_rows(ls: Seq<NoticeLine>) -> Seq<char>
    decreases ls.len(),
{
    if ls.len() == 0 {
        Seq::empty()
    } else {
        notice_rows(ls.drop_last()) + notice_row(ls.last())
    }
}

/// Render the notice lines as table rows.
pub fn items_rows_html(lines: &Vec<NoticeLine>) -> (r: String)
    ensures
        r@ == notice_rows(lines@),
{
    let n = lines.len();
    let mut r = String::new();
    let mut k: usize = 0;
    proof {
        assert(r@ =~= notice_rows(lines@.take(0)));
    }
    while k < n
        invariant
            k <= n,
            n == lines@.len(),
            r@ == notice_rows(lines@.take(k as int)),
        decreases n - k,
    {
        r.append("<tr><td>");
        r.append(lines[k].name.as_str());
        r.append("</td><td>");
        let qty_text = u64_to_dec(lines[k].quantity as u64);
        r.append(qty_text.as_str());
        r.append("</td><td>");
        let price_text = format_money(lines[k].price);
        r.append(price_text.as_str());
        r.append("</td></tr>");
        proof {
            let t = lines@.take(k + 1);
            assert(t.drop_last() =~= lines@.take(k as int));
            assert(t.last() == lines@[k as int]);
            assert(r@ =~= notice_rows(t));
        }
        k += 1;
    }
    proof {
        assert(lines@.take(n as int) =~= lines@);
    }
    r
}

// ---------------------------------------------------------------------------
// The two messages.
// ---------------------------------------------------------------------------

/// Subject of the shipping notice for one order.
pub open spec fn shipping_subject(oid: int) -> Seq<char> {
    "📚 Đơn sách #"@ + dec_str(oid) + " đang được vận chuyển!"@
}

/// Body of the shipping notice: the order's lines as table rows and the
/// total as money text.
pub open spec fn shipping_body(oid: int, rows: Seq<char>, total: Seq<char>) -> Seq<char> {
    "<html><body><div><h2>Giáo Trình Online - Thông Báo Vận Chuyển</h2><p>Đơn hàng giáo trình <b>#"@
        + dec_str(oid)
        + "</b> của bạn đã được đóng gói và bàn giao cho đơn vị vận chuyển.</p><table><tbody>"@
        + rows + "</tbody></table><div>Tổng thanh toán: "@ + total
        + "</div><p>Vui lòng chú ý điện thoại để nhận sách nhé!</p><p>BookShop Team</p></div></body></html>"@
}

/// Subject of the thank-you notice for one order.
pub open spec fn thank_you_subject(oid: int) -> Seq<char> {
    "✅ Cảm ơn bạn đã mua sách (Đơn #"@ + dec_str(oid) + ")"@
}

/// Body of the thank-you notice, carrying the points just credited.
pub open spec fn thank_you_body(oid: int, points: int) -> Seq<char> {
    "<div><h2>Giao sách thành công!</h2><p>Cảm ơn bạn đã xác nhận nhận thành công đơn <b>#"@
        + dec_str(oid) + "</b>.</p><p>🎉 Bạn đã được tích lũy +"@ + dec_str(points)
        + " điểm thưởng.</p><p>Chúc bạn học tập tốt và đạt kết quả cao!</p><p>BookShop Team</p></div>"@
}

/// Compose the shipping notice for an order handed to the carrier.
pub fn send_order_shipping_email(
    to_email: String,
    order_id: u64,
    items_rows: String,
    total_amount: String,
) -> (m: EmailMessage)
    ensures
        m.to == to_email,
        m.subject@ == shipping_subject(order_id as int),
        m.body_html@ == shipping_body(order_id as int, items_rows@, total_amount@),
{
    let oid_text = u64_to_dec(order_id);
    let mut subject = String::from_str("📚 Đơn sách #");
    subject.append(oid_text.as_str());
    subject.append(" đang được vận chuyển!");
    let mut body = String::from_str(
        "<html><body><div><h2>Giáo Trình Online - Thông Báo Vận Chuyển</h2><p>Đơn hàng giáo trình <b>#",
    );
    body.append(oid_text.as_str());
    body.append(
        "</b> của bạn đã được đóng gói và bàn giao cho đơn vị vận chuyển.</p><table><tbody>",
    );
    body.append(items_rows.as_str());
    body.append("</tbody></table><div>Tổng thanh toán: ");
    body.append(total_amount.as_str());
    body.append(
        "</div><p>Vui lòng chú ý điện thoại để nhận sách nhé!</p><p>BookShop Team</p></div></body></html>",
    );
    EmailMessage { to: to_email, subject, body_html: body }
}

/// Compose the thank-you notice for a completed order.
pub fn send_order_thank_you_email(to_email: String, order_id: u64, points: u64) -> (m:
    EmailMessage)
    ensures
        m.to == to_email,
        m.subject@ == thank_you_subject(order_id as int),
        m.body_html@ == thank_you_body(order_id as int, points as int),
{
    let oid_text = u64_to_dec(order_id);
    let points_text = u64_to_dec(points);
    let mut subject = String::from_str("✅ Cảm ơn bạn đã mua sách (Đơn #");
    subject.append(oid_text.as_str());
    subject.append(")");
    let mut body = String::from_str(
        "<div><h2>Giao sách thành công!</h2><p>Cảm ơn bạn đã xác nhận nhận thành công đơn <b>#",
    );
    body.append(oid_text.as_str());
    body.append("</b>.</p><p>🎉 Bạn đã được tích lũy +");
    body.append(points_text.as_str());
    body.append(
        " điểm thưởng.</p><p>Chúc bạn học tập tốt và đạt kết quả cao!</p><p>BookShop Team</p></div>",
    );
    EmailMessage { to: to_email, subject, body_html: body }
}

} // verus!
