//! The cart lookup-and-fill flow against an in-memory store.

use bigneon::cart::Cart;
use bigneon::engine::BoxOffice;
use bigneon::pricing::{FeeBasis, FeeSchedule, PricingTier, TicketType};

fn general_admission(id: u64) -> TicketType {
    TicketType {
        id,
        event_id: 1,
        name: String::from("General Admission"),
        start_date: 0,
        end_date: 10_000,
        pricing_tiers: vec![PricingTier {
            id: 100 + id,
            start_time: 0,
            end_time: 10_000,
            price_in_cents: 2_000,
            discount_code: None,
        }],
        fee_schedule: FeeSchedule {
            flat_fee_cents: None,
            percent_fee_bps: None,
            basis: FeeBasis::UnitPrice,
        },
    }
}

#[test]
fn add_to_cart() {
    let mut db = BoxOffice::new();
    let ticket_type_id = 1;
    db.add_ticket_type(general_admission(ticket_type_id), 100).unwrap();
    let user_id = 7;
    let cart = Cart::create(user_id).commit(&mut db, 50).unwrap();

    cart.add_item(ticket_type_id, 10, &mut db, 50).unwrap();

    let db_cart = Cart::find_for_user(user_id, &db).unwrap();
    assert_eq!(cart.id, db_cart.id);
    assert_eq!(cart.items(&db).unwrap(), db_cart.items(&db).unwrap());
    assert_eq!(db_cart.items(&db).unwrap()[0].quantity, 10);
    assert_eq!(db.ledger.row(ticket_type_id).unwrap().held, 10);
}

#[test]
fn find_by_user_when_cart_does_not_exist() {
    let db = BoxOffice::new();
    let cart_result = Cart::find_for_user(2, &db);
    assert_eq!(cart_result.err().unwrap().code(), 2000);
}

#[test]
fn commit_reuses_the_open_cart() {
    let mut db = BoxOffice::new();
    let first = Cart::create(3).commit(&mut db, 10).unwrap();
    let second = Cart::create(3).commit(&mut db, 20).unwrap();
    assert_eq!(first.id, second.id);
}
