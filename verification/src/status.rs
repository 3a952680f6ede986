//! The order status state machine: the closed set of states and the ledger
//! and notification side effects attached to each (old, new) transition pair.

use vstd::prelude::*;
use vstd::string::StringExecFns;

verus! {

/// Status of an order. The normal path is `Pending -> Shipping -> Completed`;
/// `Pending -> Cancelled` and `Completed -> Returned` are the two reversals.
/// Administrators may also write any other pair, which carries no side effect.
#[derive(Clone, Copy, PartialEq, Eq, Structural, Debug)]
pub enum OrderStatus {
    Pending,
    Shipping,
    Completed,
    Cancelled,
    Returned,
}

/// The side effects owed by one transition, keyed by the (old, new) pair and
/// never by the new status alone, so that re-writing the current status is a
/// ledger no-op.
#[derive(Clone, Copy, PartialEq, Eq, Structural, Debug)]
pub struct TransitionEffect {
    /// Credit every line's quantity back to its product's stock.
    pub credit_stock: bool,
    /// Credit the order's `points_earned` to the owning user.
    pub credit_points: bool,
    /// Debit the order's `points_earned` from the owning user, floored at 0.
    pub debit_points: bool,
    /// Send the shipping notice for this order.
    pub notify_shipping: bool,
    /// Send the thank-you notice for this order.
    pub notify_completion: bool,
}

/// Effect table of the state machine:
/// `Pending -> Shipping` notifies; any arrival at `Completed` credits points
/// and notifies; any departure from `Completed` debits them back;
/// `Pending -> Cancelled` and `Completed -> Returned` restore stock.
pub open spec fn spec_effects(old: OrderStatus, new: OrderStatus) -> TransitionEffect {
    TransitionEffect {
        credit_stock: (old is Pending && new is Cancelled) || (old is Completed
            && new is Returned),
        credit_points: !(old is Completed) && new is Completed,
        debit_points: old is Completed && !(new is Completed),
        notify_shipping: !(old is Shipping) && new is Shipping,
        notify_completion: !(old is Completed) && new is Completed,
    }
}

/// Executable form of the effect table.
pub fn effects(old: OrderStatus, new: OrderStatus) -> (e: TransitionEffect)
    ensures
        e == spec_effects(old, new),
{
    TransitionEffect {
        credit_stock: (old == OrderStatus::Pending && new == OrderStatus::Cancelled) || (old
            == OrderStatus::Completed && new == OrderStatus::Returned),
        credit_points: old != OrderStatus::Completed && new == OrderStatus::Completed,
        debit_points: old == OrderStatus::Completed && new != OrderStatus::Completed,
        notify_shipping: old != OrderStatus::Shipping && new == OrderStatus::Shipping,
        notify_completion: old != OrderStatus::Completed && new == OrderStatus::Completed,
    }
}

/// The wire name of each status.
pub open spec fn spec_status_name(s: OrderStatus) -> Seq<char> {
    match s {
        OrderStatus::Pending => "pending"@,
        OrderStatus::Shipping => "shipping"@,
        OrderStatus::Completed => "completed"@,
        OrderStatus::Cancelled => "cancelled"@,
        OrderStatus::Returned => "returned"@,
    }
}

/// The wire name of a status.
pub fn status_name(s: OrderStatus) -> (r: &'static str)
    ensures
        r@ == spec_status_name(s),
{
    match s {
        OrderStatus::Pending => "pending",
        OrderStatus::Shipping => "shipping",
        OrderStatus::Completed => "completed",
        OrderStatus::Cancelled => "cancelled",
        OrderStatus::Returned => "returned",
    }
}

/// The status a wire name denotes; anything unrecognized is refused at the
/// boundary rather than stored.
pub open spec fn spec_parse_status(s: Seq<char>) -> Option<OrderStatus> {
    if s == "pending"@ {
        Some(OrderStatus::Pending)
    } else if s == "shipping"@ {
        Some(OrderStatus::Shipping)
    } else if s == "completed"@ {
        Some(OrderStatus::Completed)
    } else if s == "cancelled"@ {
        Some(OrderStatus::Cancelled)
    } else if s == "returned"@ {
        Some(OrderStatus::Returned)
    } else {
        None
    }
}

/// Parse a wire name into a status.
pub fn parse_status(s: &String) -> (r: Option<OrderStatus>)
    ensures
        r == spec_parse_status(s@),
{
    if *s == String::from_str("pending") {
        Some(OrderStatus::Pending)
    } else if *s == String::from_str("shipping") {
        Some(OrderStatus::Shipping)
    } else if *s == String::from_str("completed") {
        Some(OrderStatus::Completed)
    } else if *s == String::from_str("cancelled") {
        Some(OrderStatus::Cancelled)
    } else if *s == String::from_str("returned") {
        Some(OrderStatus::Returned)
    } else {
        None
    }
}

/// Writing the status an order already has carries no side effect at all:
/// replaying a transition's target cannot double-apply any ledger delta.
pub proof fn lemma_rewrite_same_status_is_noop(s: OrderStatus)
    ensures
        !spec_effects(s, s).credit_stock,
        !spec_effects(s, s).credit_points,
        !spec_effects(s, s).debit_points,
        !spec_effects(s, s).notify_shipping,
        !spec_effects(s, s).notify_completion,
{
}

} // verus!
