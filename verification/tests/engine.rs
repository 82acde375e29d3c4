//! End-to-end scenarios of the reservation and pricing engine.

use bigneon::cart::{CartStatus, UpdateOrderItem};
use bigneon::cart::Cart;
use bigneon::engine::BoxOffice;
use bigneon::errors::EngineError;
use bigneon::pricing::{FeeBasis, FeeSchedule, PriceQuote, PricingTier, TicketType};

const NOW: i64 = 1_000;

fn ticket_type(id: u64, price_in_cents: u32, fee_schedule: FeeSchedule) -> TicketType {
    TicketType {
        id,
        event_id: 1,
        name: String::from("General Admission"),
        start_date: 0,
        end_date: 100_000,
        pricing_tiers: vec![PricingTier {
            id: 900 + id,
            start_time: 0,
            end_time: 100_000,
            price_in_cents,
            discount_code: None,
        }],
        fee_schedule,
    }
}

fn no_fees() -> FeeSchedule {
    FeeSchedule { flat_fee_cents: None, percent_fee_bps: None, basis: FeeBasis::UnitPrice }
}

fn line(ticket_type_id: u64, quantity: u32) -> UpdateOrderItem {
    UpdateOrderItem { ticket_type_id, quantity, redemption_code: None }
}

/// A cart for five $20 tickets totals $100, and paying it in full
/// converts every held unit to a sold one and closes the order.
#[test]
fn full_purchase_converts_holds_to_sales() {
    let mut store = BoxOffice::new();
    store.add_ticket_type(ticket_type(1, 2_000, no_fees()), 100).unwrap();
    let cart = Cart::create(7).commit(&mut store, NOW).unwrap();
    store.update_quantities(cart.id, &vec![line(1, 5)], NOW).unwrap();

    let total = store.calculate_total(cart.id).unwrap();
    assert_eq!(total, 10_000);

    store.apply_payment(cart.id, 4_242, 10_000, true).unwrap();
    let row = store.ledger.row(1).unwrap();
    assert_eq!(row.held, 0);
    assert_eq!(row.sold, 5);
    let paid_cart = Cart::find_by_id(cart.id, &store).unwrap();
    assert_eq!(paid_cart.status, CartStatus::Paid);
}

/// Fees are per unit: a flat dollar and ten percent on a $20 ticket
/// add $3 a ticket, so five tickets total $115.
#[test]
fn fee_schedule_is_applied_per_unit() {
    let fees = FeeSchedule {
        flat_fee_cents: Some(100),
        percent_fee_bps: Some(1_000),
        basis: FeeBasis::UnitPrice,
    };
    let mut store = BoxOffice::new();
    store.add_ticket_type(ticket_type(1, 2_000, fees), 100).unwrap();
    let quote = store.price_for(1, NOW, None).unwrap();
    assert_eq!(
        quote,
        PriceQuote { unit_price_in_cents: 2_000, fee_in_cents: 300, pricing_tier_id: 901 }
    );

    let cart = Cart::create(7).commit(&mut store, NOW).unwrap();
    store.update_quantities(cart.id, &vec![line(1, 5)], NOW).unwrap();
    assert_eq!(store.calculate_total(cart.id).unwrap(), 11_500);
}

/// The compounding basis is configuration: ten percent of
/// price-plus-flat yields $2.10 instead of $2.00 on a $20 ticket.
#[test]
fn fee_basis_controls_compounding() {
    let fees = FeeSchedule {
        flat_fee_cents: Some(100),
        percent_fee_bps: Some(1_000),
        basis: FeeBasis::UnitPriceAndFlatFee,
    };
    let mut store = BoxOffice::new();
    store.add_ticket_type(ticket_type(1, 2_000, fees), 100).unwrap();
    assert_eq!(store.price_for(1, NOW, None).unwrap().fee_in_cents, 310);
}

/// With no tier covering the requested time the update fails with
/// `NoActiveTier` and the ledger shows no change.
#[test]
fn expired_tier_rejects_update() {
    let mut store = BoxOffice::new();
    let mut tt = ticket_type(1, 2_000, no_fees());
    tt.pricing_tiers = vec![PricingTier {
        id: 901,
        start_time: 0,
        end_time: 500,
        price_in_cents: 2_000,
        discount_code: None,
    }];
    store.add_ticket_type(tt, 100).unwrap();
    let cart = Cart::create(7).commit(&mut store, NOW).unwrap();

    let result = store.update_quantities(cart.id, &vec![line(1, 5)], NOW);
    assert_eq!(result, Err(EngineError::NoActiveTier));
    let row = store.ledger.row(1).unwrap();
    assert_eq!((row.held, row.sold), (0, 0));
    assert_eq!(store.remaining(1).unwrap(), 100);
}

/// A discount code that matches no active tier is rejected; the
/// matching code selects the restricted tier and its price.
#[test]
fn discount_codes_select_restricted_tiers() {
    let mut store = BoxOffice::new();
    let mut tt = ticket_type(1, 2_000, no_fees());
    tt.pricing_tiers.push(PricingTier {
        id: 902,
        start_time: 0,
        end_time: 100_000,
        price_in_cents: 1_500,
        discount_code: Some(55),
    });
    store.add_ticket_type(tt, 100).unwrap();

    assert_eq!(store.price_for(1, NOW, Some(55)).unwrap().unit_price_in_cents, 1_500);
    assert_eq!(store.price_for(1, NOW, Some(56)), Err(EngineError::InvalidDiscountCode));
}

/// Thirty-one minutes of silence against a thirty-minute
/// time-to-live: the sweeper releases the holds, expires the cart,
/// and a late payment is turned away with `InvalidState`.
#[test]
fn sweeper_reclaims_abandoned_carts() {
    let mut store = BoxOffice::new();
    store.add_ticket_type(ticket_type(1, 2_000, no_fees()), 100).unwrap();
    let opened_at: i64 = 0;
    let cart = Cart::create(7).commit(&mut store, opened_at).unwrap();
    store.update_quantities(cart.id, &vec![line(1, 5)], opened_at).unwrap();
    assert_eq!(store.ledger.row(1).unwrap().held, 5);

    let swept = store.sweep_expired(30 * 60, 31 * 60);
    assert_eq!(swept, 1);
    assert_eq!(store.ledger.row(1).unwrap().held, 0);
    let expired_cart = Cart::find_by_id(cart.id, &store).unwrap();
    assert_eq!(expired_cart.status, CartStatus::Expired);

    let late_payment = store.apply_payment(cart.id, 4_242, 10_000, true);
    assert_eq!(late_payment, Err(EngineError::InvalidState));
}

/// Sweeping an already-swept store finds nothing and changes nothing.
#[test]
fn sweep_is_idempotent() {
    let mut store = BoxOffice::new();
    store.add_ticket_type(ticket_type(1, 2_000, no_fees()), 100).unwrap();
    let cart = Cart::create(7).commit(&mut store, 0).unwrap();
    store.update_quantities(cart.id, &vec![line(1, 5)], 0).unwrap();

    assert_eq!(store.sweep_expired(30 * 60, 31 * 60), 1);
    let row_after_first = store.ledger.row(1).unwrap();
    assert_eq!(store.sweep_expired(30 * 60, 31 * 60), 0);
    assert_eq!(store.ledger.row(1).unwrap(), row_after_first);
    assert_eq!(row_after_first.held, 0);
}

/// Two buyers race for the last unit: the first reservation wins and
/// the second fails with the capacity guard, leaving one unit held.
#[test]
fn last_unit_is_sold_exactly_once() {
    let mut store = BoxOffice::new();
    store.add_ticket_type(ticket_type(1, 2_000, no_fees()), 1).unwrap();
    let first = Cart::create(1).commit(&mut store, NOW).unwrap();
    let second = Cart::create(2).commit(&mut store, NOW).unwrap();

    store.update_quantities(first.id, &vec![line(1, 1)], NOW).unwrap();
    let loser = store.update_quantities(second.id, &vec![line(1, 1)], NOW);
    assert_eq!(loser, Err(EngineError::CapacityExceeded));

    let row = store.ledger.row(1).unwrap();
    assert_eq!((row.total, row.held, row.sold), (1, 1, 0));
    assert!(row.held + row.sold <= row.total);
}

/// Raising a quantity and then clearing it returns the held counter
/// to its pre-call value.
#[test]
fn update_round_trip_restores_holds() {
    let mut store = BoxOffice::new();
    store.add_ticket_type(ticket_type(1, 2_000, no_fees()), 100).unwrap();
    let cart = Cart::create(7).commit(&mut store, NOW).unwrap();
    let held_before = store.ledger.row(1).unwrap().held;

    store.update_quantities(cart.id, &vec![line(1, 9)], NOW).unwrap();
    assert_eq!(store.ledger.row(1).unwrap().held, 9);
    store.update_quantities(cart.id, &vec![line(1, 0)], NOW).unwrap();
    assert_eq!(store.ledger.row(1).unwrap().held, held_before);
    assert!(Cart::find_by_id(cart.id, &store).unwrap().items(&store).unwrap().is_empty());
}

/// A partial payment is recorded but leaves the order open and the
/// ledger untouched; the covering payment closes it.
#[test]
fn partial_payments_leave_the_order_open() {
    let mut store = BoxOffice::new();
    store.add_ticket_type(ticket_type(1, 2_000, no_fees()), 100).unwrap();
    let cart = Cart::create(7).commit(&mut store, NOW).unwrap();
    store.update_quantities(cart.id, &vec![line(1, 5)], NOW).unwrap();

    store.apply_payment(cart.id, 1, 4_000, true).unwrap();
    assert_eq!(Cart::find_by_id(cart.id, &store).unwrap().status, CartStatus::Open);
    assert_eq!(store.ledger.row(1).unwrap().held, 5);

    // a failed gateway result is recorded but never counts
    store.apply_payment(cart.id, 2, 6_000, false).unwrap();
    assert_eq!(Cart::find_by_id(cart.id, &store).unwrap().status, CartStatus::Open);

    store.apply_payment(cart.id, 3, 6_000, true).unwrap();
    let paid = Cart::find_by_id(cart.id, &store).unwrap();
    assert_eq!(paid.status, CartStatus::Paid);
    assert_eq!(paid.payments.len(), 3);
    assert_eq!(store.ledger.row(1).unwrap().sold, 5);
}

/// Cancelling an open cart releases its holds; cancelling it again
/// is an `InvalidState` error.
#[test]
fn cancel_releases_holds_once() {
    let mut store = BoxOffice::new();
    store.add_ticket_type(ticket_type(1, 2_000, no_fees()), 100).unwrap();
    let cart = Cart::create(7).commit(&mut store, NOW).unwrap();
    store.update_quantities(cart.id, &vec![line(1, 5)], NOW).unwrap();

    store.cancel(cart.id).unwrap();
    assert_eq!(store.ledger.row(1).unwrap().held, 0);
    assert_eq!(Cart::find_by_id(cart.id, &store).unwrap().status, CartStatus::Cancelled);
    assert_eq!(store.cancel(cart.id), Err(EngineError::InvalidState));
}

/// A multi-line update is all-or-nothing: when one line oversells,
/// the passing line's hold is not applied either.
#[test]
fn multi_line_updates_apply_atomically() {
    let mut store = BoxOffice::new();
    store.add_ticket_type(ticket_type(1, 2_000, no_fees()), 100).unwrap();
    store.add_ticket_type(ticket_type(2, 3_000, no_fees()), 2).unwrap();
    let cart = Cart::create(7).commit(&mut store, NOW).unwrap();

    let result = store.update_quantities(cart.id, &vec![line(1, 5), line(2, 3)], NOW);
    assert_eq!(result, Err(EngineError::CapacityExceeded));
    assert_eq!(store.ledger.row(1).unwrap().held, 0);
    assert_eq!(store.ledger.row(2).unwrap().held, 0);

    store.update_quantities(cart.id, &vec![line(1, 5), line(2, 2)], NOW).unwrap();
    assert_eq!(store.ledger.row(1).unwrap().held, 5);
    assert_eq!(store.ledger.row(2).unwrap().held, 2);
    assert_eq!(store.calculate_total(cart.id).unwrap(), 16_000);
}

/// A recipient can be attached without changing the cart's owner.
#[test]
fn behalf_of_user_keeps_ownership() {
    let mut store = BoxOffice::new();
    let cart = Cart::create(7).commit(&mut store, NOW).unwrap();
    store.set_behalf_of_user(cart.id, 9, NOW).unwrap();
    let updated = Cart::find_by_id(cart.id, &store).unwrap();
    assert_eq!(updated.user_id, 7);
    assert_eq!(updated.on_behalf_of_user_id, Some(9));
}

/// Unknown identifiers and misuse map to the documented errors and
/// their stable numeric codes.
#[test]
fn error_taxonomy_codes() {
    let mut store = BoxOffice::new();
    assert_eq!(store.remaining(99), Err(EngineError::NotFound));
    assert_eq!(EngineError::NotFound.code(), 2000);
    assert_eq!(EngineError::CapacityExceeded.code(), 7200);
    assert_eq!(EngineError::NoActiveTier.code(), 7210);
    assert_eq!(EngineError::InvalidDiscountCode.code(), 7220);
    assert_eq!(EngineError::InvalidState.code(), 7230);
    assert_eq!(EngineError::InsufficientHold.code(), 7240);
    assert_eq!(EngineError::TransientStoreError.code(), 5000);

    store.add_ticket_type(ticket_type(1, 2_000, no_fees()), 100).unwrap();
    let duplicate = store.add_ticket_type(ticket_type(1, 2_000, no_fees()), 100);
    assert_eq!(duplicate, Err(EngineError::InvalidState));

    // releasing more than is held is the fatal consistency signal
    assert_eq!(store.ledger.release(1, 1), Err(EngineError::InsufficientHold));
    assert_eq!(store.ledger.commit_sale(1, 1), Err(EngineError::InsufficientHold));
}

/// The ledger primitives move counters exactly as specified.
#[test]
fn ledger_counters_move_exactly() {
    let mut store = BoxOffice::new();
    store.add_ticket_type(ticket_type(1, 2_000, no_fees()), 10).unwrap();
    store.ledger.reserve(1, 4).unwrap();
    assert_eq!(store.ledger.remaining(1).unwrap(), 6);
    store.ledger.commit_sale(1, 3).unwrap();
    let row = store.ledger.row(1).unwrap();
    assert_eq!((row.held, row.sold), (1, 3));
    store.ledger.reserve(1, -1).unwrap();
    assert_eq!(store.ledger.row(1).unwrap().held, 0);
    assert_eq!(store.ledger.reserve(1, 8), Err(EngineError::CapacityExceeded));
}

/// Pseudo-random storms of reservations, commits and releases never
/// push a row past its capacity.
#[test]
fn random_reservations_never_oversell() {
    let mut store = BoxOffice::new();
    store.add_ticket_type(ticket_type(1, 2_000, no_fees()), 50).unwrap();
    let mut seed: u64 = 0x9E37_79B9_7F4A_7C15;
    for _ in 0..1_000 {
        seed = seed.wrapping_mul(6_364_136_223_846_793_005).wrapping_add(1_442_695_040_888_963_407);
        let delta = ((seed >> 33) % 21) as i64 - 10;
        let _ = store.ledger.reserve(1, delta);
        if seed % 7 == 0 {
            let _ = store.ledger.commit_sale(1, ((seed >> 20) % 4) as u32);
        }
        if seed % 11 == 0 {
            let _ = store.ledger.release(1, ((seed >> 10) % 4) as u32);
        }
        let row = store.ledger.row(1).unwrap();
        assert!(row.held + row.sold <= row.total);
        assert!(u64::from(row.held) + u64::from(row.sold) <= u64::from(row.total));
    }
}

/// Five buyers race for the last unit in some serialized order:
/// exactly one succeeds, the rest fail the capacity guard.
#[test]
fn n_buyers_race_for_the_last_unit() {
    let mut store = BoxOffice::new();
    store.add_ticket_type(ticket_type(1, 2_000, no_fees()), 1).unwrap();
    let mut wins = 0;
    let mut losses = 0;
    for user_id in 1..=5 {
        let cart = Cart::create(user_id).commit(&mut store, NOW).unwrap();
        match store.update_quantities(cart.id, &vec![line(1, 1)], NOW) {
            Ok(()) => wins += 1,
            Err(e) => {
                assert_eq!(e, EngineError::CapacityExceeded);
                losses += 1;
            }
        }
    }
    assert_eq!((wins, losses), (1, 4));
}
