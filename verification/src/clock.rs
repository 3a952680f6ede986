//! The system clock, and the one lifecycle operation that consults it.

use vstd::prelude::*;

use crate::errors::OrderError;
use crate::lifecycle::{return_order_resolved, OrderNotice};
use crate::store::Store;

verus! {

/// Relies on chrono's `Utc::now`, which refuses a pre-epoch system clock,
/// so the seconds-of-Unix-time it reports are never negative. Nothing more
/// can be promised of a clock.
#[verifier::external_body]
fn unix_time_now() -> (r: i64)
    ensures
        r >= 0,
{
    chrono::Utc::now().timestamp()
}

impl Store {
    /// `return_order` at the clock's current instant: whatever instant the
    /// clock reported, the outcome is the one `return_order` owes at that
    /// instant.
    pub fn return_order_now(&mut self, user_id: u64, order_id: u64) -> (r: Result<
        Option<OrderNotice>,
        OrderError,
    >)
        requires
            old(self).wf(),
        ensures
            final(self).wf(),
            exists|now: i64|
                #[trigger] return_order_resolved(
                    *old(self),
                    *final(self),
                    user_id,
                    order_id,
                    now,
                    r,
                ) && now >= 0,
    {
        let now = unix_time_now();
        self.return_order(user_id, order_id, now)
    }
}

} // verus!
