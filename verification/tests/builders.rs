//! The order builder and the administrative display projection.

use bigneon::cart::CartStatus;
use bigneon::display::AdminDisplayTicketType;
use bigneon::engine::BoxOffice;
use bigneon::order_builder::OrderBuilder;
use bigneon::pricing::{FeeBasis, FeeSchedule, PricingTier, TicketType};

const NOW: i64 = 1_000;

fn sale(id: u64) -> TicketType {
    TicketType {
        id,
        event_id: 1,
        name: String::from("Balcony"),
        start_date: 0,
        end_date: 100_000,
        pricing_tiers: vec![
            PricingTier {
                id: 901,
                start_time: 0,
                end_time: 500,
                price_in_cents: 1_500,
                discount_code: None,
            },
            PricingTier {
                id: 902,
                start_time: 500,
                end_time: 100_000,
                price_in_cents: 2_000,
                discount_code: None,
            },
        ],
        fee_schedule: FeeSchedule {
            flat_fee_cents: Some(50),
            percent_fee_bps: None,
            basis: FeeBasis::UnitPrice,
        },
    }
}

#[test]
fn order_builder_finishes_a_paid_order() {
    let mut store = BoxOffice::new();
    store.add_ticket_type(sale(1), 100).unwrap();

    let order = OrderBuilder::new(3, 1)
        .quantity(4)
        .on_behalf_of_user(9)
        .is_paid()
        .finish(&mut store, NOW)
        .unwrap();

    assert_eq!(order.user_id, 3);
    assert_eq!(order.on_behalf_of_user_id, Some(9));
    assert_eq!(order.status, CartStatus::Paid);
    assert_eq!(order.items.len(), 1);
    // the current tier is the second one, snapshotted for audit
    assert_eq!(order.items[0].pricing_tier_id, 902);
    assert_eq!(order.items[0].unit_price_in_cents, 2_000);
    assert_eq!(order.items[0].fee_in_cents, 50);
    // 4 * ($20.00 + $0.50) paid in full
    assert_eq!(order.payments[0].amount_in_cents, 8_200);

    let row = store.ledger.row(1).unwrap();
    assert_eq!((row.held, row.sold), (0, 4));
}

#[test]
fn order_builder_defaults_to_ten_unpaid() {
    let mut store = BoxOffice::new();
    store.add_ticket_type(sale(1), 100).unwrap();
    let order = OrderBuilder::new(3, 1).finish(&mut store, NOW).unwrap();
    assert_eq!(order.status, CartStatus::Open);
    assert_eq!(order.items[0].quantity, 10);
    assert_eq!(store.ledger.row(1).unwrap().held, 10);
}

#[test]
fn admin_display_joins_catalog_and_ledger() {
    let mut store = BoxOffice::new();
    store.add_ticket_type(sale(1), 100).unwrap();
    let order = OrderBuilder::new(3, 1).quantity(4).finish(&mut store, NOW);
    order.unwrap();

    let ticket_type = &store.ticket_types[0];
    let display = AdminDisplayTicketType::from_ticket_type(ticket_type, &store.ledger, NOW)
        .unwrap();
    assert_eq!(display.id, 1);
    assert_eq!(display.name, "Balcony");
    assert_eq!(display.capacity, 100);
    assert_eq!(display.quantity, 96);
    assert_eq!(display.status.name(), "OnSale");
    // the tier that closed at 500 is no longer displayed
    assert_eq!(display.ticket_pricing.len(), 1);
    assert_eq!(display.ticket_pricing[0].pricing_tier_id, 902);
    assert_eq!(display.ticket_pricing[0].fee_in_cents, 50);
}

#[test]
fn order_builder_surfaces_the_line_error() {
    let mut store = BoxOffice::new();
    let mut tt = sale(1);
    // both tiers closed before the call
    tt.pricing_tiers.truncate(1);
    store.add_ticket_type(tt, 100).unwrap();

    let result = OrderBuilder::new(3, 1).quantity(4).finish(&mut store, NOW);
    assert_eq!(result.unwrap_err(), bigneon::errors::EngineError::NoActiveTier);
    // nothing beyond the freshly opened empty cart changed
    let row = store.ledger.row(1).unwrap();
    assert_eq!((row.held, row.sold), (0, 0));
    let cart = bigneon::cart::Cart::find_for_user(3, &store).unwrap();
    assert!(cart.items.is_empty());
}
