//! The inventory ledger: per-ticket-type counters of total, held and
//! sold units, the source of truth for availability.
//!
//! The ledger is the oversell guard.  Its single invariant — for every
//! row, `held + sold <= total` — is stated by [`LedgerRow::wf`] and is
//! established and preserved by every operation.  In the deployed
//! system each mutation runs inside one store transaction holding a
//! row-level lock keyed on the ticket-type identifier; this crate
//! models the serialized history that such locking produces, so each
//! operation here is one atomic step of that history.

use vstd::prelude::*;
use crate::errors::EngineError;

verus! {

/// One capacity-accounting row: a ticket type's fixed `total`, the
/// units `held` by open carts, and the units `sold` to paid orders.
#[derive(Clone, Copy, Debug, PartialEq, Eq, Structural)]
pub struct LedgerRow {
    pub ticket_type_id: u64,
    pub total: u32,
    pub held: u32,
    pub sold: u32,
}

impl LedgerRow {
    /// The no-oversell invariant of one row.
    pub open spec fn wf(self) -> bool {
        self.held + self.sold <= self.total
    }

    /// Units neither held nor sold; advisory between a read and the
    /// next `reserve`, which re-checks authoritatively.
    pub open spec fn spec_remaining(self) -> int {
        self.total - self.held - self.sold
    }
}

/// Whether adjusting a row's held count by `delta` keeps the
/// no-oversell invariant: the guard that `reserve` enforces.
pub open spec fn spec_can_reserve(row: LedgerRow, delta: int) -> bool {
    0 <= row.held + delta && row.held + delta + row.sold <= row.total
}

/// The row after such an adjustment.
pub open spec fn spec_reserved(row: LedgerRow, delta: int) -> LedgerRow {
    LedgerRow { held: (row.held + delta) as u32, ..row }
}

/// No two rows account for the same ticket type.
pub open spec fn rows_unique(rows: Seq<LedgerRow>) -> bool {
    forall|i: int, j: int|
        0 <= i < j < rows.len() ==> rows[i].ticket_type_id != rows[j].ticket_type_id
}

/// Every row keeps the no-oversell invariant, and rows are unique.
pub open spec fn rows_wf(rows: Seq<LedgerRow>) -> bool {
    &&& rows_unique(rows)
    &&& forall|i: int| 0 <= i < rows.len() ==> #[trigger] rows[i].wf()
}

/// Whether some row accounts for `ticket_type_id`.
pub open spec fn has_row(rows: Seq<LedgerRow>, ticket_type_id: u64) -> bool {
    exists|i: int| 0 <= i < rows.len() && rows[i].ticket_type_id == ticket_type_id
}

/// The index of the row for `ticket_type_id`; meaningful only when
/// `has_row` holds and rows are unique.
pub open spec fn row_index(rows: Seq<LedgerRow>, ticket_type_id: u64) -> int {
    choose|i: int| 0 <= i < rows.len() && rows[i].ticket_type_id == ticket_type_id
}

/// The row for `ticket_type_id`; meaningful only when `has_row` holds
/// and rows are unique.
pub open spec fn row_of(rows: Seq<LedgerRow>, ticket_type_id: u64) -> LedgerRow {
    rows[row_index(rows, ticket_type_id)]
}

/// With unique rows, any index that matches `ticket_type_id` is the
/// index that `row_index` picks.
pub proof fn lemma_row_index(rows: Seq<LedgerRow>, ticket_type_id: u64, i: int)
    requires
        rows_unique(rows),
        0 <= i < rows.len(),
        rows[i].ticket_type_id == ticket_type_id,
    ensures
        has_row(rows, ticket_type_id),
        row_index(rows, ticket_type_id) == i,
        row_of(rows, ticket_type_id) == rows[i],
{
    assert(has_row(rows, ticket_type_id));
    let j = row_index(rows, ticket_type_id);
    assert(0 <= j < rows.len() && rows[j].ticket_type_id == ticket_type_id);
    if i < j {
        assert(rows[i].ticket_type_id != rows[j].ticket_type_id);
    } else if j < i {
        assert(rows[j].ticket_type_id != rows[i].ticket_type_id);
    }
}

/// Updating the row at `i` without changing its ticket type leaves
/// every other ticket type's row, and all lookups, as they were.
pub proof fn lemma_row_update(rows: Seq<LedgerRow>, i: int, row: LedgerRow)
    requires
        rows_unique(rows),
        0 <= i < rows.len(),
        row.ticket_type_id == rows[i].ticket_type_id,
    ensures
        rows_unique(rows.update(i, row)),
        forall|t: u64| #[trigger] has_row(rows.update(i, row), t) == has_row(rows, t),
        forall|t: u64|
            t != rows[i].ticket_type_id && has_row(rows, t)
                ==> #[trigger] row_of(rows.update(i, row), t) == row_of(rows, t),
        row_of(rows.update(i, row), rows[i].ticket_type_id) == row,
{
    let post = rows.update(i, row);
    assert forall|t: u64| #[trigger] has_row(post, t) == has_row(rows, t) by {
        if has_row(rows, t) {
            let k = choose|k: int| 0 <= k < rows.len() && rows[k].ticket_type_id == t;
            assert(post[k].ticket_type_id == t);
        }
        if has_row(post, t) {
            let k = choose|k: int| 0 <= k < post.len() && post[k].ticket_type_id == t;
            assert(rows[k].ticket_type_id == t);
        }
    }
    assert forall|t: u64|
        t != rows[i].ticket_type_id && has_row(rows, t)
            implies #[trigger] row_of(post, t) == row_of(rows, t) by {
        let k = row_index(rows, t);
        assert(0 <= k < rows.len() && rows[k].ticket_type_id == t);
        assert(k != i);
        lemma_row_index(post, t, k);
    }
    lemma_row_index(post, rows[i].ticket_type_id, i);
}

/// The inventory ledger: one row per ticket type.
pub struct InventoryLedger {
    pub rows: Vec<LedgerRow>,
}

impl InventoryLedger {
    /// The ledger invariant: unique, well-formed rows.
    pub open spec fn wf(self) -> bool {
        rows_wf(self.rows@)
    }

    /// Whether the ledger accounts for `ticket_type_id`.
    pub open spec fn spec_has(self, ticket_type_id: u64) -> bool {
        has_row(self.rows@, ticket_type_id)
    }

    /// The row for `ticket_type_id` (meaningful when `spec_has` holds).
    pub open spec fn spec_row(self, ticket_type_id: u64) -> LedgerRow {
        row_of(self.rows@, ticket_type_id)
    }

    /// An empty ledger.
    pub fn new() -> (ledger: InventoryLedger)
        ensures
            ledger.wf(),
            ledger.rows@.len() == 0,
    {
        InventoryLedger { rows: Vec::new() }
    }

    /// The index of the row for `ticket_type_id`, if any.
    pub fn find_row(&self, ticket_type_id: u64) -> (r: Option<usize>)
        ensures
            match r {
                Some(i) => i < self.rows@.len()
                    && self.rows@[i as int].ticket_type_id == ticket_type_id,
                None => !self.spec_has(ticket_type_id),
            },
    {
        let n = self.rows.len();
        let mut i: usize = 0;
        while i < n
            invariant
                i <= n,
                n == self.rows@.len(),
                forall|k: int| 0 <= k < i ==> self.rows@[k].ticket_type_id != ticket_type_id,
            decreases n - i,
        {
            if self.rows[i].ticket_type_id == ticket_type_id {
                return Some(i);
            }
            i += 1;
        }
        None
    }

    /// Opens accounting for a new ticket type with the given fixed
    /// capacity, no units held or sold.  Fails with `InvalidState` if
    /// and only if the ticket type already has a row.
    pub fn add_ticket_type(&mut self, ticket_type_id: u64, total: u32) -> (r: Result<
        (),
        EngineError,
    >)
        requires
            old(self).wf(),
        ensures
            final(self).wf(),
            r is Ok <==> !old(self).spec_has(ticket_type_id),
            r is Err ==> r == Result::<(), EngineError>::Err(EngineError::InvalidState)
                && *final(self) == *old(self),
            r is Ok ==> final(self).rows@ == old(self).rows@.push(
                LedgerRow { ticket_type_id, total, held: 0, sold: 0 },
            ),
            r is Ok ==> final(self).spec_has(ticket_type_id)
                && final(self).spec_row(ticket_type_id)
                    == (LedgerRow { ticket_type_id, total, held: 0, sold: 0 }),
            forall|t: u64| t != ticket_type_id ==> #[trigger] final(self).spec_has(t)
                == old(self).spec_has(t),
            forall|t: u64| t != ticket_type_id && old(self).spec_has(t)
                ==> #[trigger] final(self).spec_row(t) == old(self).spec_row(t),
    {
        if self.find_row(ticket_type_id).is_some() {
            return Err(EngineError::InvalidState);
        }
        let row = LedgerRow { ticket_type_id, total, held: 0, sold: 0 };
        let ghost pre = self.rows@;
        self.rows.push(row);
        proof {
            let post = self.rows@;
            assert forall|t: u64| t != ticket_type_id && has_row(pre, t)
                implies #[trigger] row_of(post, t) == row_of(pre, t) by {
                let k = row_index(pre, t);
                lemma_row_index(post, t, k);
            }
            assert forall|t: u64| t != ticket_type_id
                implies #[trigger] has_row(post, t) == has_row(pre, t) by {
                if has_row(post, t) {
                    let k = choose|k: int| 0 <= k < post.len() && post[k].ticket_type_id == t;
                    assert(pre[k].ticket_type_id == t);
                }
                if has_row(pre, t) {
                    let k = choose|k: int| 0 <= k < pre.len() && pre[k].ticket_type_id == t;
                    assert(post[k].ticket_type_id == t);
                }
            }
            lemma_row_index(post, ticket_type_id, pre.len() as int);
        }
        Ok(())
    }

    /// Atomically adjusts the held count by `delta` (negative values
    /// decrease it), subject to `held + sold + delta <= total` and
    /// `held + delta >= 0`.  This is the oversell guard: it fails with
    /// `CapacityExceeded` if and only if the adjusted row would break
    /// the invariant, and with `NotFound` if and only if the ticket
    /// type has no row; on failure the ledger is unchanged.
    pub fn reserve(&mut self, ticket_type_id: u64, delta: i64) -> (r: Result<(), EngineError>)
        requires
            old(self).wf(),
        ensures
            final(self).wf(),
            r is Ok <==> old(self).spec_has(ticket_type_id) && spec_can_reserve(
                old(self).spec_row(ticket_type_id),
                delta as int,
            ),
            r is Err ==> *final(self) == *old(self) && r == Result::<(), EngineError>::Err(
                if old(self).spec_has(ticket_type_id) {
                    EngineError::CapacityExceeded
                } else {
                    EngineError::NotFound
                },
            ),
            r is Ok ==> final(self).spec_row(ticket_type_id) == spec_reserved(
                old(self).spec_row(ticket_type_id),
                delta as int,
            ),
            final(self).rows@.len() == old(self).rows@.len(),
            forall|t: u64| #[trigger] final(self).spec_has(t) == old(self).spec_has(t),
            forall|t: u64| t != ticket_type_id && old(self).spec_has(t)
                ==> #[trigger] final(self).spec_row(t) == old(self).spec_row(t),
    {
        let idx = match self.find_row(ticket_type_id) {
            Some(i) => i,
            None => {
                return Err(EngineError::NotFound);
            },
        };
        proof {
            lemma_row_index(self.rows@, ticket_type_id, idx as int);
        }
        let row = self.rows[idx];
        let new_held_wide: i128 = row.held as i128 + delta as i128;
        if new_held_wide < 0 || new_held_wide + row.sold as i128 > row.total as i128 {
            return Err(EngineError::CapacityExceeded);
        }
        let new_row = LedgerRow { held: new_held_wide as u32, ..row };
        proof {
            lemma_row_update(self.rows@, idx as int, new_row);
        }
        self.rows.set(idx, new_row);
        Ok(())
    }

    /// Atomically moves `qty` units from held to sold (a paid order's
    /// commit step).  Fails with `InsufficientHold` if and only if
    /// fewer than `qty` units are held — a consistency failure when it
    /// happens, since callers commit only what they hold — and with
    /// `NotFound` if and only if the ticket type has no row; on
    /// failure the ledger is unchanged.
    pub fn commit_sale(&mut self, ticket_type_id: u64, qty: u32) -> (r: Result<(), EngineError>)
        requires
            old(self).wf(),
        ensures
            final(self).wf(),
            r is Ok <==> old(self).spec_has(ticket_type_id)
                && qty <= old(self).spec_row(ticket_type_id).held,
            r is Err ==> *final(self) == *old(self) && r == Result::<(), EngineError>::Err(
                if old(self).spec_has(ticket_type_id) {
                    EngineError::InsufficientHold
                } else {
                    EngineError::NotFound
                },
            ),
            r is Ok ==> final(self).spec_row(ticket_type_id) == (LedgerRow {
                held: (old(self).spec_row(ticket_type_id).held - qty) as u32,
                sold: (old(self).spec_row(ticket_type_id).sold + qty) as u32,
                ..old(self).spec_row(ticket_type_id)
            }),
            final(self).rows@.len() == old(self).rows@.len(),
            forall|t: u64| #[trigger] final(self).spec_has(t) == old(self).spec_has(t),
            forall|t: u64| t != ticket_type_id && old(self).spec_has(t)
                ==> #[trigger] final(self).spec_row(t) == old(self).spec_row(t),
    {
        let idx = match self.find_row(ticket_type_id) {
            Some(i) => i,
            None => {
                return Err(EngineError::NotFound);
            },
        };
        proof {
            lemma_row_index(self.rows@, ticket_type_id, idx as int);
            assert(self.rows@[idx as int].wf());
        }
        let row = self.rows[idx];
        if qty > row.held {
            return Err(EngineError::InsufficientHold);
        }
        let new_row = LedgerRow { held: row.held - qty, sold: row.sold + qty, ..row };
        proof {
            lemma_row_update(self.rows@, idx as int, new_row);
        }
        self.rows.set(idx, new_row);
        Ok(())
    }

    /// Atomically decreases the held count by `qty` (the expiry and
    /// cancellation path).  Fails with `InsufficientHold` if and only
    /// if fewer than `qty` units are held, and with `NotFound` if and
    /// only if the ticket type has no row; on failure the ledger is
    /// unchanged.
    pub fn release(&mut self, ticket_type_id: u64, qty: u32) -> (r: Result<(), EngineError>)
        requires
            old(self).wf(),
        ensures
            final(self).wf(),
            r is Ok <==> old(self).spec_has(ticket_type_id)
                && qty <= old(self).spec_row(ticket_type_id).held,
            r is Err ==> *final(self) == *old(self) && r == Result::<(), EngineError>::Err(
                if old(self).spec_has(ticket_type_id) {
                    EngineError::InsufficientHold
                } else {
                    EngineError::NotFound
                },
            ),
            r is Ok ==> final(self).spec_row(ticket_type_id) == (LedgerRow {
                held: (old(self).spec_row(ticket_type_id).held - qty) as u32,
                ..old(self).spec_row(ticket_type_id)
            }),
            final(self).rows@.len() == old(self).rows@.len(),
            forall|t: u64| #[trigger] final(self).spec_has(t) == old(self).spec_has(t),
            forall|t: u64| t != ticket_type_id && old(self).spec_has(t)
                ==> #[trigger] final(self).spec_row(t) == old(self).spec_row(t),
    {
        let idx = match self.find_row(ticket_type_id) {
            Some(i) => i,
            None => {
                return Err(EngineError::NotFound);
            },
        };
        proof {
            lemma_row_index(self.rows@, ticket_type_id, idx as int);
            assert(self.rows@[idx as int].wf());
        }
        let row = self.rows[idx];
        if qty > row.held {
            return Err(EngineError::InsufficientHold);
        }
        let new_row = LedgerRow { held: row.held - qty, ..row };
        proof {
            lemma_row_update(self.rows@, idx as int, new_row);
        }
        self.rows.set(idx, new_row);
        Ok(())
    }

    /// A copy of the row for `ticket_type_id`, for display and tests.
    /// Fails with `NotFound` if and only if the ticket type has no row.
    pub fn row(&self, ticket_type_id: u64) -> (r: Result<LedgerRow, EngineError>)
        requires
            self.wf(),
        ensures
            r is Ok <==> self.spec_has(ticket_type_id),
            r is Ok ==> r == Result::<LedgerRow, EngineError>::Ok(self.spec_row(ticket_type_id)),
            r is Err ==> r == Result::<LedgerRow, EngineError>::Err(EngineError::NotFound),
    {
        match self.find_row(ticket_type_id) {
            Some(i) => {
                proof {
                    lemma_row_index(self.rows@, ticket_type_id, i as int);
                }
                Ok(self.rows[i])
            },
            None => Err(EngineError::NotFound),
        }
    }

    /// `total - held - sold`: units still available for reservation.
    /// Read-only and advisory: callers must not treat it as a
    /// reservation, since a later `reserve` re-checks authoritatively.
    /// Fails with `NotFound` if and only if the ticket type has no row.
    pub fn remaining(&self, ticket_type_id: u64) -> (r: Result<u32, EngineError>)
        requires
            self.wf(),
        ensures
            r is Ok <==> self.spec_has(ticket_type_id),
            r is Ok ==> r == Result::<u32, EngineError>::Ok(
                self.spec_row(ticket_type_id).spec_remaining() as u32,
            ),
            r is Err ==> r == Result::<u32, EngineError>::Err(EngineError::NotFound),
    {
        match self.find_row(ticket_type_id) {
            Some(i) => {
                proof {
                    lemma_row_index(self.rows@, ticket_type_id, i as int);
                    assert(self.rows@[i as int].wf());
                }
                let row = self.rows[i];
                Ok(row.total - row.held - row.sold)
            },
            None => Err(EngineError::NotFound),
        }
    }
}

} // verus!
