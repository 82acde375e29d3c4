//! A fluent builder that walks a whole order through the engine:
//! open the buyer's cart, set the quantity, optionally attach a
//! recipient, and optionally pay the computed total in full.

use vstd::prelude::*;
use crate::cart::{Cart, CartStatus, OrderItem, Payment, UpdateOrderItem, items_hold, items_total,
    items_unique, lemma_items_hold_unique, lemma_payments_total_push, lemma_payments_total_nonneg,
    lemma_cart_hold_le_open_holds, cart_hold};
use crate::engine::{BoxOffice, items_updated, spec_line_error, spec_line_error_for,
    spec_first_line_error, spec_updated_item};
use crate::errors::EngineError;
use crate::ledger::LedgerRow;
use crate::pricing::ticket_types_unique;

verus! {

/// The steps one `finish` call performs, in order.  Defaults mirror a
/// plain sale: quantity ten, no recipient, unpaid.
pub struct OrderBuilder {
    pub user_id: u64,
    pub ticket_type_id: u64,
    pub order_quantity: u32,
    pub pay_in_full: bool,
    pub on_behalf_of_user_id: Option<u64>,
}

/// The index the buyer's cart has in the store after `finish` opens
/// or reuses it: the one open cart's, or the fresh slot at the end.
pub open spec fn spec_target_cart(store: BoxOffice, user_id: u64) -> int {
    if store.spec_has_open_cart(user_id) {
        store.spec_open_cart_index(user_id)
    } else {
        store.carts@.len() as int
    }
}

/// The lines that cart holds before the call; none for a fresh cart.
pub open spec fn spec_prior_items(store: BoxOffice, user_id: u64) -> Seq<OrderItem> {
    if store.spec_has_open_cart(user_id) {
        store.carts@[store.spec_open_cart_index(user_id)].items@
    } else {
        Seq::empty()
    }
}

/// The payments that cart carries before the call.
pub open spec fn spec_prior_payments(store: BoxOffice, user_id: u64) -> Seq<Payment> {
    if store.spec_has_open_cart(user_id) {
        store.carts@[store.spec_open_cart_index(user_id)].payments@
    } else {
        Seq::empty()
    }
}

/// The recipient that cart names before the call.
pub open spec fn spec_prior_behalf(store: BoxOffice, user_id: u64) -> Option<u64> {
    if store.spec_has_open_cart(user_id) {
        store.carts@[store.spec_open_cart_index(user_id)].on_behalf_of_user_id
    } else {
        None
    }
}

/// The line check reads only the catalog, the ledger and the given
/// items, so two stores that agree on catalog and ledger agree on it
/// and on the resolved ticket type.
proof fn lemma_line_check_same_catalog(
    a: BoxOffice,
    b: BoxOffice,
    items: Seq<OrderItem>,
    line: UpdateOrderItem,
    now: i64,
)
    requires
        a.ticket_types@ == b.ticket_types@,
        a.ledger == b.ledger,
        ticket_types_unique(a.ticket_types@),
    ensures
        spec_line_error_for(a, items, line, now) == spec_line_error_for(b, items, line, now),
        a.spec_has_ticket_type(line.ticket_type_id) == b.spec_has_ticket_type(
            line.ticket_type_id,
        ),
        a.spec_has_ticket_type(line.ticket_type_id) ==> a.spec_ticket_type(line.ticket_type_id)
            == b.spec_ticket_type(line.ticket_type_id),
{
    let t = line.ticket_type_id;
    if a.spec_has_ticket_type(t) {
        let i = a.spec_ticket_type_index(t);
        assert(0 <= i < a.ticket_types@.len() && a.ticket_types@[i].id == t);
        a.lemma_ticket_type_index(t, i);
        b.lemma_ticket_type_index(t, i);
    }
    if b.spec_has_ticket_type(t) {
        let i = b.spec_ticket_type_index(t);
        assert(0 <= i < b.ticket_types@.len() && b.ticket_types@[i].id == t);
        a.lemma_ticket_type_index(t, i);
        b.lemma_ticket_type_index(t, i);
    }
}

/// What one `finish` call does to the store, case by case.
///
/// The buyer's cart is the open one, or a fresh empty cart at the
/// end of the store.  The call succeeds exactly when the single
/// requested line passes its checks against the pre-call state and,
/// for a paid order, the computed total fits one gateway payment.  On
/// a failing line check that error comes out and nothing beyond the
/// possibly freshly opened empty cart changes.  On success the line
/// is applied with a fresh price snapshot and the ledger hold follows
/// it; a paid order further converts every line's hold to sold units
/// and records one successful payment equal to the computed total.
/// Each inner step is one store transaction, so the one failure after
/// mutation (a total too large for one payment) leaves the reserved
/// open cart in place, as the deployed system's separate transactions
/// would.
pub open spec fn order_finished(
    pre: BoxOffice,
    post: BoxOffice,
    b: OrderBuilder,
    r: Result<Cart, EngineError>,
    now: i64,
) -> bool {
    let cid = spec_target_cart(pre, b.user_id);
    let tt = b.ticket_type_id;
    let prior_items = spec_prior_items(pre, b.user_id);
    let check = spec_line_error_for(pre, prior_items, b.spec_line(), now);
    let post_cart = post.carts@[cid];
    let post_items = post.carts@[cid].items@;
    let row0 = pre.ledger.spec_row(tt);
    let cur0 = items_hold(prior_items, tt);

    &&& post.ticket_types@ == pre.ticket_types@
    &&& post.carts@.len() as int == (if pre.spec_has_open_cart(b.user_id) {
        pre.carts@.len() as int
    } else {
        pre.carts@.len() as int + 1
    })
    &&& (forall|i: int|
        0 <= i < pre.carts@.len() && i != cid ==> post.carts@[i] == pre.carts@[i])
    &&& (forall|t: u64| #[trigger] post.ledger.spec_has(t) == pre.ledger.spec_has(t))
    &&& post_cart.user_id == b.user_id
    &&& post_cart.id as int == cid
    &&& (r is Ok <==> check is None && (b.pay_in_full ==> items_total(post_items) <= u64::MAX))
    &&& match check {
        Some(e) => {
            &&& r == Result::<Cart, EngineError>::Err(e)
            &&& post.ledger == pre.ledger
            &&& if pre.spec_has_open_cart(b.user_id) {
                post_cart == pre.carts@[cid]
            } else {
                post_cart.status == CartStatus::Open && post_cart.on_behalf_of_user_id is None
                    && post_items.len() == 0 && post_cart.payments@.len() == 0
                    && post_cart.last_updated_at == now
            }
        },
        None => {
            &&& items_updated(prior_items, post_items, pre, seq![b.spec_line()], now)
            &&& post_cart.last_updated_at == now
            &&& post_cart.on_behalf_of_user_id == (if b.on_behalf_of_user_id is Some {
                b.on_behalf_of_user_id
            } else {
                spec_prior_behalf(pre, b.user_id)
            })
            &&& items_hold(post_items, tt) == b.order_quantity
            &&& (forall|t: u64|
                t != tt ==> #[trigger] items_hold(post_items, t) == items_hold(prior_items, t))
            &&& if b.pay_in_full && items_total(post_items) <= u64::MAX {
                &&& post_cart.status == CartStatus::Paid
                &&& post_cart.payments@ == spec_prior_payments(pre, b.user_id).push(
                    Payment {
                        provider_reference: 0,
                        amount_in_cents: items_total(post_items) as u64,
                        succeeded: true,
                    },
                )
                &&& (forall|t: u64|
                    t != tt && pre.ledger.spec_has(t) ==> #[trigger] post.ledger.spec_row(t)
                        == (LedgerRow {
                        held: (pre.ledger.spec_row(t).held - items_hold(prior_items, t)) as u32,
                        sold: (pre.ledger.spec_row(t).sold + items_hold(prior_items, t)) as u32,
                        ..pre.ledger.spec_row(t)
                    }))
                &&& post.ledger.spec_row(tt) == (LedgerRow {
                    held: (row0.held - cur0) as u32,
                    sold: (row0.sold + b.order_quantity) as u32,
                    ..row0
                })
            } else {
                &&& post_cart.status == CartStatus::Open
                &&& post_cart.payments@ == spec_prior_payments(pre, b.user_id)
                &&& (forall|t: u64|
                    t != tt && pre.ledger.spec_has(t) ==> #[trigger] post.ledger.spec_row(t)
                        == pre.ledger.spec_row(t))
                &&& post.ledger.spec_row(tt) == (LedgerRow {
                    held: (row0.held - cur0 + b.order_quantity) as u32,
                    ..row0
                })
                &&& (b.pay_in_full ==> r == Result::<Cart, EngineError>::Err(
                    EngineError::CapacityExceeded,
                ))
            }
            &&& match r {
                Ok(c) => c.id as int == cid && c.user_id == b.user_id && c.status
                    == post_cart.status && c.items@ == post_items && c.payments@
                    == post_cart.payments@ && c.on_behalf_of_user_id
                    == post_cart.on_behalf_of_user_id && c.last_updated_at == now,
                Err(_) => true,
            }
        },
    }
}

impl OrderBuilder {
    /// The one requested line a `finish` call applies.
    pub open spec fn spec_line(self) -> UpdateOrderItem {
        UpdateOrderItem {
            ticket_type_id: self.ticket_type_id,
            quantity: self.order_quantity,
            redemption_code: None,
        }
    }

    /// An order of ten units of the ticket type for the buyer,
    /// unpaid, with no distinct recipient.
    pub fn new(user_id: u64, ticket_type_id: u64) -> (b: OrderBuilder)
        ensures
            b == (OrderBuilder {
                user_id,
                ticket_type_id,
                order_quantity: 10,
                pay_in_full: false,
                on_behalf_of_user_id: None,
            }),
    {
        OrderBuilder {
            user_id,
            ticket_type_id,
            order_quantity: 10,
            pay_in_full: false,
            on_behalf_of_user_id: None,
        }
    }

    /// Orders for a different buyer.
    pub fn for_user(self, user_id: u64) -> (b: OrderBuilder)
        ensures
            b == (OrderBuilder { user_id, ..self }),
    {
        OrderBuilder { user_id, ..self }
    }

    /// Attaches a distinct ticket recipient.
    pub fn on_behalf_of_user(self, user_id: u64) -> (b: OrderBuilder)
        ensures
            b == (OrderBuilder { on_behalf_of_user_id: Some(user_id), ..self }),
    {
        OrderBuilder { on_behalf_of_user_id: Some(user_id), ..self }
    }

    /// Orders a different ticket type.
    pub fn for_ticket_type(self, ticket_type_id: u64) -> (b: OrderBuilder)
        ensures
            b == (OrderBuilder { ticket_type_id, ..self }),
    {
        OrderBuilder { ticket_type_id, ..self }
    }

    /// Orders a different quantity.
    pub fn quantity(self, order_quantity: u32) -> (b: OrderBuilder)
        ensures
            b == (OrderBuilder { order_quantity, ..self }),
    {
        OrderBuilder { order_quantity, ..self }
    }

    /// Pays the computed total in full at the end.
    pub fn is_paid(self) -> (b: OrderBuilder)
        ensures
            b == (OrderBuilder { pay_in_full: true, ..self }),
    {
        OrderBuilder { pay_in_full: true, ..self }
    }

    /// Runs the order: opens (or reuses) the buyer's cart, sets the
    /// line's quantity with a fresh price snapshot, attaches the
    /// recipient if one was named, and on `pay_in_full` records one
    /// successful gateway result for the computed total, which closes
    /// the order as `Paid`.  Returns a snapshot of the finished cart.
    /// [`order_finished`] states the outcome — success condition,
    /// error, ledger and cart — case by case.
    #[verifier::rlimit(100)]
    #[verifier::spinoff_prover]
    pub fn finish(&self, store: &mut BoxOffice, now: i64) -> (r: Result<Cart, EngineError>)
        requires
            old(store).wf(),
        ensures
            final(store).wf(),
            order_finished(*old(store), *final(store), *self, r, now),
    {
        let ghost pre = *store;
        let ghost cid = spec_target_cart(pre, self.user_id);
        let ghost prior_items = spec_prior_items(pre, self.user_id);
        let ghost line_g = self.spec_line();

        let cart_id = store.find_or_create_cart(self.user_id, now);
        let ghost s1 = *store;
        proof {
            assert(cart_id as int == cid);
            if pre.spec_has_open_cart(self.user_id) {
                assert(s1 == pre);
                assert(s1.carts@[cid].items@ == prior_items);
            } else {
                assert(s1.carts@[cid].items@ =~= prior_items);
                assert(s1.carts@[cid].payments@ =~= spec_prior_payments(pre, self.user_id));
            }
            assert(s1.carts@[cid].payments@ == spec_prior_payments(pre, self.user_id));
            assert(s1.carts@[cid].on_behalf_of_user_id == spec_prior_behalf(pre, self.user_id));
            lemma_line_check_same_catalog(s1, pre, prior_items, line_g, now);
        }

        let line = UpdateOrderItem {
            ticket_type_id: self.ticket_type_id,
            quantity: self.order_quantity,
            redemption_code: None,
        };
        let mut updates: Vec<UpdateOrderItem> = Vec::new();
        updates.push(line);
        proof {
            assert(updates@ =~= seq![line]);
            assert(updates@[0] == line);
            assert(updates@.drop_first() =~= Seq::<UpdateOrderItem>::empty());
            // the singleton's first error is the line's own check
            let cart1 = s1.spec_cart(cart_id);
            assert(spec_first_line_error(s1, cart1, updates@.drop_first(), now) is None);
            if spec_line_error(s1, cart1, line, now) is Some {
                assert(spec_first_line_error(s1, cart1, updates@, now) == spec_line_error(
                    s1,
                    cart1,
                    updates@[0],
                    now,
                ));
            } else {
                assert(spec_first_line_error(s1, cart1, updates@, now) == spec_first_line_error(
                    s1,
                    cart1,
                    updates@.drop_first(),
                    now,
                ));
            }
            assert(spec_first_line_error(s1, cart1, updates@, now) == spec_line_error(
                s1,
                cart1,
                line,
                now,
            ));
            assert(spec_line_error(s1, cart1, line, now) == spec_line_error_for(
                pre,
                prior_items,
                line_g,
                now,
            ));
        }
        match store.update_quantities(cart_id, &updates, now) {
            Ok(_) => {},
            Err(e) => {
                proof {
                    assert(*store == s1);
                    assert(spec_line_error_for(pre, prior_items, line_g, now) == Some(e));
                }
                return Err(e);
            },
        }
        let ghost s2 = *store;
        proof {
            assert(spec_line_error_for(pre, prior_items, line_g, now) is None);
            // the applied line, restated against the pre-call catalog
            assert(spec_updated_item(s1, line, now) == spec_updated_item(pre, line, now));
            assert(items_updated(prior_items, s2.carts@[cid].items@, pre, seq![line_g], now)) by {
                assert(seq![line_g][0] == line);
                assert(items_updated(prior_items, s2.carts@[cid].items@, s1, updates@, now));
            }
            // the cart's held quantities, per ticket type
            let items2 = s2.carts@[cid].items@;
            assert(s2.spec_cart(cart_id).wf());
            lemma_items_hold_unique(items2, self.ticket_type_id);
            if line.quantity > 0 {
                assert(crate::cart::items_contain(items2, self.ticket_type_id));
            } else {
                assert(!crate::cart::items_contain(items2, self.ticket_type_id));
            }
            assert(items_hold(items2, self.ticket_type_id) == self.order_quantity);
            assert(items_unique(prior_items));
            assert forall|t: u64| t != self.ticket_type_id implies #[trigger] items_hold(
                items2,
                t,
            ) == items_hold(prior_items, t) by {
                assert(!crate::engine::updates_contain(seq![line_g], t));
                assert(crate::cart::items_contain(items2, t) == crate::cart::items_contain(
                    prior_items,
                    t,
                ));
                lemma_items_hold_unique(items2, t);
                lemma_items_hold_unique(prior_items, t);
                if crate::cart::items_contain(prior_items, t) {
                    let k = crate::cart::item_index_of(prior_items, t);
                    crate::cart::lemma_item_index(prior_items, t, k);
                    let k2 = crate::cart::item_index_of(items2, t);
                    crate::cart::lemma_item_index(items2, t, k2);
                    assert(items2[k2] == prior_items[k]);
                }
            }
            // the single line's ledger effect over the pre-call row
            assert(items_hold(prior_items, self.ticket_type_id) == items_hold(
                s1.spec_cart(cart_id).items@,
                self.ticket_type_id,
            ));
        }
        match self.on_behalf_of_user_id {
            Some(recipient) => {
                match store.set_behalf_of_user(cart_id, recipient, now) {
                    Ok(_) => {},
                    Err(e) => {
                        proof {
                            assert(false);
                        }
                        return Err(e);
                    },
                }
            },
            None => {},
        }
        let ghost s3 = *store;
        if self.pay_in_full {
            let total = match store.calculate_total(cart_id) {
                Ok(t) => t,
                Err(e) => {
                    proof {
                        assert(false);
                    }
                    return Err(e);
                },
            };
            proof {
                assert(total == items_total(s2.carts@[cid].items@));
            }
            if total > u64::MAX as u128 {
                proof {
                    assert(*store == s3);
                }
                return Err(EngineError::CapacityExceeded);
            }
            let ghost before_pay = *store;
            match store.apply_payment(cart_id, 0, total as u64, true) {
                Ok(_) => {},
                Err(e) => {
                    proof {
                        assert(false);
                    }
                    return Err(e);
                },
            }
            proof {
                let payment = Payment {
                    provider_reference: 0,
                    amount_in_cents: total as u64,
                    succeeded: true,
                };
                lemma_payments_total_push(before_pay.spec_cart(cart_id).payments@, payment);
                lemma_payments_total_nonneg(before_pay.spec_cart(cart_id).payments@);
                // the paid ledger, row by row over the pre-call state
                let items2 = s2.carts@[cid].items@;
                let tt = self.ticket_type_id;
                assert forall|t: u64| t != tt && pre.ledger.spec_has(t) implies #[trigger]
                    store.ledger.spec_row(t) == (LedgerRow {
                    held: (pre.ledger.spec_row(t).held - items_hold(prior_items, t)) as u32,
                    sold: (pre.ledger.spec_row(t).sold + items_hold(prior_items, t)) as u32,
                    ..pre.ledger.spec_row(t)
                }) by {
                    assert(before_pay.ledger.spec_row(t) == pre.ledger.spec_row(t));
                    assert(items_hold(items2, t) == items_hold(prior_items, t));
                    // the released quantity stays within the held count
                    assert(pre.carts@[cid].wf() || prior_items.len() == 0);
                    if pre.spec_has_open_cart(self.user_id) {
                        lemma_cart_hold_le_open_holds(pre.carts@, cid, t);
                        assert(cart_hold(pre.carts@[cid], t) == items_hold(prior_items, t));
                        assert(pre.ledger.spec_row(t).held == crate::cart::open_holds(
                            pre.carts@,
                            t,
                        ));
                    } else {
                        crate::cart::lemma_items_hold_nonneg(prior_items, t);
                        assert(items_hold(prior_items, t) == 0);
                    }
                }
                // the requested line's own row: reserved by the update,
                // then converted to sold units by the commit
                assert(pre.ledger.spec_has(tt));
                let row0 = pre.ledger.spec_row(tt);
                let cur0 = items_hold(prior_items, tt);
                if pre.spec_has_open_cart(self.user_id) {
                    lemma_cart_hold_le_open_holds(pre.carts@, cid, tt);
                    assert(cart_hold(pre.carts@[cid], tt) == cur0);
                    assert(row0.held == crate::cart::open_holds(pre.carts@, tt));
                } else {
                    assert(prior_items.len() == 0);
                    assert(cur0 == 0);
                }
                assert(row0.held >= cur0);
                assert(row0.held - cur0 + self.order_quantity + row0.sold <= row0.total);
                assert(before_pay.ledger.spec_row(tt) == (LedgerRow {
                    held: (row0.held - cur0 + self.order_quantity) as u32,
                    ..row0
                }));
                assert(items_hold(items2, tt) == self.order_quantity);
                assert(store.ledger.spec_row(tt) == (LedgerRow {
                    held: (row0.held - cur0) as u32,
                    sold: (row0.sold + self.order_quantity) as u32,
                    ..row0
                }));
            }
        }
        match Cart::find_by_id(cart_id, store) {
            Ok(c) => {
                proof {
                    assert(order_finished(pre, *store, *self, Result::Ok(c), now));
                }
                Ok(c)
            },
            Err(e) => {
                proof {
                    assert(false);
                }
                Err(e)
            },
        }
    }
}

} // verus!
