//! The engine's laws: properties that hold across operations, proved
//! from the operations' own contracts.

use vstd::prelude::*;
use crate::cart::{UpdateOrderItem, items_hold, lemma_items_hold_unique};
use crate::engine::{BoxOffice, items_updated, spec_line_error, sweep_applied};
use crate::ledger::{LedgerRow, spec_can_reserve, spec_reserved};

verus! {

/// No oversell, ever: in any well-formed store, every ticket type's
/// held and sold units fit inside its fixed total.  Every operation
/// of the engine requires and re-establishes `wf`, so this holds at
/// all times.
pub proof fn lemma_no_oversell(store: BoxOffice, ticket_type_id: u64)
    requires
        store.wf(),
        store.ledger.spec_has(ticket_type_id),
    ensures
        store.ledger.spec_row(ticket_type_id).held + store.ledger.spec_row(ticket_type_id).sold
            <= store.ledger.spec_row(ticket_type_id).total,
{
    let rows = store.ledger.rows@;
    let i = crate::ledger::row_index(rows, ticket_type_id);
    assert(rows[i].wf());
}

/// How many of `n` single-unit reservation attempts, serialized on
/// the row as the store's lock serializes them, succeed.  Each
/// attempt is one `InventoryLedger::reserve(_, 1)` call: it succeeds
/// exactly under `spec_can_reserve` and leaves `spec_reserved` behind,
/// as `reserve`'s contract states.
pub open spec fn reservation_wins(row: LedgerRow, n: nat) -> int
    decreases n,
{
    if n == 0 {
        0
    } else if spec_can_reserve(row, 1) {
        1 + reservation_wins(spec_reserved(row, 1), (n - 1) as nat)
    } else {
        reservation_wins(row, (n - 1) as nat)
    }
}

/// A full row (all capacity held or sold) admits no reservation: all
/// further attempts fail, however many there are.
pub proof fn lemma_full_row_wins_none(row: LedgerRow, n: nat)
    requires
        row.held + row.sold == row.total,
    ensures
        reservation_wins(row, n) == 0,
    decreases n,
{
    if n > 0 {
        assert(!spec_can_reserve(row, 1));
        lemma_full_row_wins_none(row, (n - 1) as nat);
    }
}

/// The last unit cannot be sold twice: of `n >= 1` buyers racing to
/// reserve the one unit of a fresh single-unit ticket type, exactly
/// one succeeds and every other attempt fails with the capacity
/// guard, in whatever order the store serializes them.
pub proof fn lemma_last_unit_exclusive(row: LedgerRow, n: nat)
    requires
        row.total == 1,
        row.held == 0,
        row.sold == 0,
        n >= 1,
    ensures
        reservation_wins(row, n) == 1,
{
    assert(spec_can_reserve(row, 1));
    let after = spec_reserved(row, 1);
    assert(after.held + after.sold == after.total);
    lemma_full_row_wins_none(after, (n - 1) as nat);
}

/// Sweeping is idempotent: a sweep leaves no cart both open and past
/// the time-to-live, so a second sweep at the same instant — on an
/// already-expired cart or any other — changes neither the carts nor
/// the ledger.
pub proof fn lemma_sweep_idempotent(
    s0: BoxOffice,
    s1: BoxOffice,
    s2: BoxOffice,
    ttl_seconds: i64,
    now: i64,
)
    requires
        sweep_applied(s0, s1, ttl_seconds, now),
        sweep_applied(s1, s2, ttl_seconds, now),
    ensures
        s2 == s1,
{
}

/// Round trip: updating a cart's quantity for a ticket type it held
/// none of to `q`, and then to zero, returns the ledger's held
/// counter for that type to its pre-call value.  The states `s0`,
/// `s1`, `s2` are related exactly as two successful
/// `update_quantities` calls' contracts relate them.  (For a cart
/// that already held units of the type, the second call releases
/// those too, so the counter ends below its pre-call value instead.)
pub proof fn lemma_update_round_trip(
    s0: BoxOffice,
    s1: BoxOffice,
    s2: BoxOffice,
    cart_id: u64,
    line_up: UpdateOrderItem,
    line_down: UpdateOrderItem,
    now1: i64,
    now2: i64,
)
    requires
        s0.wf(),
        s1.wf(),
        s0.spec_has_cart(cart_id),
        s1.spec_has_cart(cart_id),
        s0.ledger.spec_has(line_up.ticket_type_id),
        s1.ledger.spec_has(line_up.ticket_type_id),
        line_up.quantity > 0,
        line_down.ticket_type_id == line_up.ticket_type_id,
        line_down.quantity == 0,
        // the cart held none of this ticket type before the first call
        items_hold(s0.spec_cart(cart_id).items@, line_up.ticket_type_id) == 0,
        // the first call's checks passed ...
        spec_line_error(s0, s0.spec_cart(cart_id), line_up, now1) is None,
        // ... and its contract relates s0 to s1
        s1.ledger.spec_row(line_up.ticket_type_id) == (LedgerRow {
            held: (s0.ledger.spec_row(line_up.ticket_type_id).held - items_hold(
                s0.spec_cart(cart_id).items@,
                line_up.ticket_type_id,
            ) + line_up.quantity) as u32,
            ..s0.ledger.spec_row(line_up.ticket_type_id)
        }),
        items_updated(
            s0.spec_cart(cart_id).items@,
            s1.spec_cart(cart_id).items@,
            s0,
            seq![line_up],
            now1,
        ),
        // the second call's contract relates s1 to s2
        s2.ledger.spec_row(line_down.ticket_type_id) == (LedgerRow {
            held: (s1.ledger.spec_row(line_down.ticket_type_id).held - items_hold(
                s1.spec_cart(cart_id).items@,
                line_down.ticket_type_id,
            ) + line_down.quantity) as u32,
            ..s1.ledger.spec_row(line_down.ticket_type_id)
        }),
    ensures
        s2.ledger.spec_row(line_up.ticket_type_id).held == s0.ledger.spec_row(
            line_up.ticket_type_id,
        ).held,
{
    let t = line_up.ticket_type_id;
    let row0 = s0.ledger.spec_row(t);
    // The first call's capacity check bounds the new held count.
    assert(row0.held + line_up.quantity + row0.sold <= row0.total);
    assert(s1.ledger.spec_row(t).held == row0.held + line_up.quantity);
    // After the first call the cart holds exactly `q` of the type.
    assert(seq![line_up][0] == line_up);
    let items1 = s1.spec_cart(cart_id).items@;
    assert(crate::cart::items_contain(items1, t) && items1[crate::cart::item_index_of(items1, t)]
        == crate::engine::spec_updated_item(s0, line_up, now1));
    assert(s1.spec_cart(cart_id).wf());
    lemma_items_hold_unique(items1, t);
    assert(items_hold(items1, t) == line_up.quantity);
    // So the second call releases exactly `q` again.
    assert(s2.ledger.spec_row(t).held == s1.ledger.spec_row(t).held - line_up.quantity);
}

} // verus!
