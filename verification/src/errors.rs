//! The error taxonomy of the order lifecycle core.

use vstd::prelude::*;

verus! {

/// Everything a lifecycle or catalog operation can refuse with.
///
/// `NotFound` deliberately covers both an absent order and an order owned by
/// someone else, so that a non-owner cannot probe which order ids exist.
/// `StorageFailure` stands for any aborted commit; in this model it arises
/// exactly when a ledger delta would leave the range of its column.
#[derive(Clone, Copy, PartialEq, Eq, Structural, Debug)]
pub enum OrderError {
    /// Checkout was asked for while the user's cart holds no line.
    EmptyCart,
    /// The requested status change is not permitted from the current status.
    InvalidTransition,
    /// The record is absent, or is an order not owned by the caller.
    NotFound,
    /// The caller lacks the administrator role.
    Forbidden,
    /// A cash-on-delivery order awaits an administrator's payment confirmation.
    PaymentPending,
    /// The return window of seven days after creation has elapsed.
    Expired,
    /// The atomic unit could not commit; nothing was applied.
    StorageFailure,
}

} // verus!
