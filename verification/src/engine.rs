//! The cart/order engine over one shared store.
//!
//! [`BoxOffice`] bundles the three collections the engine mutates —
//! the inventory ledger, the ticket-type catalog and the carts — the
//! way the deployed system's transactional store does.  Every public
//! operation is one atomic step: in the deployed system it runs inside
//! one store transaction with a row-level lock on each touched ledger
//! row, and this crate verifies the serialized history such locking
//! produces.
//!
//! The engine's central invariant, part of [`BoxOffice::wf`], ties the
//! two sides of the accounting together: for every ticket type, the
//! ledger's `held` column equals the units held by the open carts.
//! Together with the per-row `held + sold <= total`, this is the
//! no-oversell guarantee.

use vstd::prelude::*;
use crate::cart::{
    Cart, CartStatus, OrderItem, Payment, UpdateOrderItem, cart_hold, items_contain, items_hold,
    items_unique, item_index_of, item_hold, open_holds, lemma_items_hold_unique,
    lemma_items_hold_update, lemma_items_hold_push, lemma_items_hold_remove,
    lemma_items_hold_nonneg, lemma_open_holds_update, lemma_open_holds_push,
    lemma_cart_hold_le_open_holds, lemma_item_index, find_item,
    copy_items, copy_payments, lemma_items_hold_absent, items_total, items_total_exec,
    payments_total, payments_total_exec,
};
use crate::errors::EngineError;
use crate::ledger::{InventoryLedger, LedgerRow};
use crate::pricing::{PriceQuote, TicketType, ticket_types_unique, MAX_UNIT_PRICE_CENTS,
    MAX_FEE_BPS};

verus! {

/// The shared store the engine operates on: the ledger rows, the
/// ticket-type catalog and every buyer's cart.  Cart identifiers are
/// assigned by the store and equal the cart's position, so they are
/// unique for the store's whole life.
pub struct BoxOffice {
    pub ledger: InventoryLedger,
    pub ticket_types: Vec<TicketType>,
    pub carts: Vec<Cart>,
}

/// Whether some requested line of the call names `ticket_type_id`.
pub open spec fn updates_contain(updates: Seq<UpdateOrderItem>, ticket_type_id: u64) -> bool {
    exists|i: int| 0 <= i < updates.len() && updates[i].ticket_type_id == ticket_type_id
}

/// Whether every tier of the sequence respects the unit-price bound.
fn tiers_within_bounds(tiers: &Vec<crate::pricing::PricingTier>) -> (b: bool)
    ensures
        b == forall|k: int| 0 <= k < tiers@.len() ==> (#[trigger] tiers@[k]).wf(),
{
    let n = tiers.len();
    let mut i: usize = 0;
    let mut ok: bool = true;
    while i < n
        invariant
            i <= n,
            n == tiers@.len(),
            ok == forall|k: int| 0 <= k < i ==> (#[trigger] tiers@[k]).wf(),
        decreases n - i,
    {
        if tiers[i].price_in_cents > MAX_UNIT_PRICE_CENTS {
            ok = false;
        }
        i += 1;
    }
    ok
}

/// No two requested lines of one call name the same ticket type: the
/// lines of one call form a set keyed by ticket type.
pub open spec fn updates_unique(updates: Seq<UpdateOrderItem>) -> bool {
    forall|i: int, j: int|
        0 <= i < j < updates.len() ==> updates[i].ticket_type_id != updates[j].ticket_type_id
}

impl BoxOffice {
    /// Whether the catalog has a ticket type with this identifier.
    pub open spec fn spec_has_ticket_type(self, ticket_type_id: u64) -> bool {
        exists|i: int|
            0 <= i < self.ticket_types@.len() && self.ticket_types@[i].id == ticket_type_id
    }

    /// The catalog index of that ticket type; meaningful only when
    /// `spec_has_ticket_type` holds and the catalog is unique.
    pub open spec fn spec_ticket_type_index(self, ticket_type_id: u64) -> int {
        choose|i: int|
            0 <= i < self.ticket_types@.len() && self.ticket_types@[i].id == ticket_type_id
    }

    /// The catalog entry for that ticket type.
    pub open spec fn spec_ticket_type(self, ticket_type_id: u64) -> TicketType {
        self.ticket_types@[self.spec_ticket_type_index(ticket_type_id)]
    }

    /// Whether a cart with this identifier exists.
    pub open spec fn spec_has_cart(self, cart_id: u64) -> bool {
        cart_id < self.carts@.len()
    }

    /// The cart with this identifier.
    pub open spec fn spec_cart(self, cart_id: u64) -> Cart {
        self.carts@[cart_id as int]
    }

    /// Whether `user_id` currently has an open cart.
    pub open spec fn spec_has_open_cart(self, user_id: u64) -> bool {
        exists|i: int|
            0 <= i < self.carts@.len() && (#[trigger] self.carts@[i]).status == CartStatus::Open
                && self.carts@[i].user_id == user_id
    }

    /// The index of that open cart; meaningful only when
    /// `spec_has_open_cart` holds, and unique under `wf`.
    pub open spec fn spec_open_cart_index(self, user_id: u64) -> int {
        choose|i: int|
            0 <= i < self.carts@.len() && (#[trigger] self.carts@[i]).status == CartStatus::Open
                && self.carts@[i].user_id == user_id
    }

    /// The engine's global invariant.
    ///
    /// Besides well-formedness and uniqueness of each collection it
    /// states the two accounting guarantees: every item of every cart
    /// references an existing ledger row, at most one open cart exists
    /// per buyer, and — the oversell core — each ledger row's `held`
    /// equals the units the open carts hold of its ticket type.
    pub open spec fn wf(self) -> bool {
        &&& self.ledger.wf()
        &&& ticket_types_unique(self.ticket_types@)
        &&& forall|i: int|
            0 <= i < self.ticket_types@.len() ==> (#[trigger] self.ticket_types@[i]).wf()
        &&& forall|i: int| 0 <= i < self.carts@.len() ==> (#[trigger] self.carts@[i]).wf()
        &&& forall|i: int| 0 <= i < self.carts@.len() ==> (#[trigger] self.carts@[i]).id == i as u64
        &&& forall|i: int, j: int|
            0 <= i < j < self.carts@.len() && (#[trigger] self.carts@[i]).status
                == CartStatus::Open && (#[trigger] self.carts@[j]).status == CartStatus::Open
                ==> self.carts@[i].user_id != self.carts@[j].user_id
        &&& forall|i: int, k: int|
            0 <= i < self.carts@.len() && 0 <= k < self.carts@[i].items@.len()
                ==> self.ledger.spec_has((#[trigger] self.carts@[i].items@[k]).ticket_type_id)
        &&& forall|t: u64|
            #[trigger] self.ledger.spec_has(t) ==> self.ledger.spec_row(t).held == open_holds(
                self.carts@,
                t,
            )
    }

    /// An empty store: no ticket types, no carts, nothing held.
    pub fn new() -> (store: BoxOffice)
        ensures
            store.wf(),
            store.ticket_types@.len() == 0,
            store.carts@.len() == 0,
            store.ledger.rows@.len() == 0,
    {
        BoxOffice {
            ledger: InventoryLedger::new(),
            ticket_types: Vec::new(),
            carts: Vec::new(),
        }
    }

    /// The catalog index of `ticket_type_id`, if any.
    pub fn find_ticket_type(&self, ticket_type_id: u64) -> (r: Option<usize>)
        ensures
            match r {
                Some(i) => i < self.ticket_types@.len()
                    && self.ticket_types@[i as int].id == ticket_type_id,
                None => !self.spec_has_ticket_type(ticket_type_id),
            },
    {
        let n = self.ticket_types.len();
        let mut i: usize = 0;
        while i < n
            invariant
                i <= n,
                n == self.ticket_types@.len(),
                forall|k: int| 0 <= k < i ==> self.ticket_types@[k].id != ticket_type_id,
            decreases n - i,
        {
            if self.ticket_types[i].id == ticket_type_id {
                return Some(i);
            }
            i += 1;
        }
        None
    }

    /// With a unique catalog, any index that matches `ticket_type_id`
    /// is the index that `spec_ticket_type_index` picks.
    pub proof fn lemma_ticket_type_index(self, ticket_type_id: u64, i: int)
        requires
            ticket_types_unique(self.ticket_types@),
            0 <= i < self.ticket_types@.len(),
            self.ticket_types@[i].id == ticket_type_id,
        ensures
            self.spec_has_ticket_type(ticket_type_id),
            self.spec_ticket_type_index(ticket_type_id) == i,
            self.spec_ticket_type(ticket_type_id) == self.ticket_types@[i],
    {
        assert(self.spec_has_ticket_type(ticket_type_id));
        let j = self.spec_ticket_type_index(ticket_type_id);
        if i < j {
            assert(self.ticket_types@[i].id != self.ticket_types@[j].id);
        } else if j < i {
            assert(self.ticket_types@[j].id != self.ticket_types@[i].id);
        }
    }

    /// Under `wf`, any open cart of `user_id` stands at the index that
    /// `spec_open_cart_index` picks.
    pub proof fn lemma_open_cart_index(self, user_id: u64, i: int)
        requires
            self.wf(),
            0 <= i < self.carts@.len(),
            self.carts@[i].status == CartStatus::Open,
            self.carts@[i].user_id == user_id,
        ensures
            self.spec_has_open_cart(user_id),
            self.spec_open_cart_index(user_id) == i,
    {
        assert(self.spec_has_open_cart(user_id));
        let j = self.spec_open_cart_index(user_id);
        if i < j {
            assert(self.carts@[i].user_id != self.carts@[j].user_id);
        } else if j < i {
            assert(self.carts@[j].user_id != self.carts@[i].user_id);
        }
    }

    /// Puts a new ticket type on sale: its catalog entry (tiers and
    /// fee schedule) and its ledger row with the fixed capacity
    /// `total`, nothing held or sold.  Fails with `InvalidState` if
    /// and only if the identifier is already taken, or the definition
    /// breaks the engine's price bounds (a tier price or flat fee over
    /// `MAX_UNIT_PRICE_CENTS`, a percentage over `MAX_FEE_BPS`); on
    /// failure the store is unchanged.
    pub fn add_ticket_type(&mut self, ticket_type: TicketType, total: u32) -> (r: Result<
        (),
        EngineError,
    >)
        requires
            old(self).wf(),
        ensures
            final(self).wf(),
            r is Ok <==> !old(self).spec_has_ticket_type(ticket_type.id)
                && !old(self).ledger.spec_has(ticket_type.id) && ticket_type.wf(),
            r is Err ==> *final(self) == *old(self) && r == Result::<(), EngineError>::Err(
                EngineError::InvalidState,
            ),
            r is Ok ==> final(self).ticket_types@ == old(self).ticket_types@.push(ticket_type),
            r is Ok ==> final(self).ledger.spec_has(ticket_type.id) && final(self).ledger.spec_row(
                ticket_type.id,
            ) == (LedgerRow { ticket_type_id: ticket_type.id, total, held: 0, sold: 0 }),
            forall|t: u64|
                t != ticket_type.id ==> #[trigger] final(self).ledger.spec_has(t)
                    == old(self).ledger.spec_has(t),
            forall|t: u64|
                t != ticket_type.id && old(self).ledger.spec_has(t)
                    ==> #[trigger] final(self).ledger.spec_row(t) == old(self).ledger.spec_row(t),
            final(self).carts@ == old(self).carts@,
    {
        if self.find_ticket_type(ticket_type.id).is_some() {
            return Err(EngineError::InvalidState);
        }
        if self.ledger.find_row(ticket_type.id).is_some() {
            return Err(EngineError::InvalidState);
        }
        // Validate the definition against the engine's price bounds.
        match ticket_type.fee_schedule.flat_fee_cents {
            Some(flat) => {
                if flat > MAX_UNIT_PRICE_CENTS {
                    return Err(EngineError::InvalidState);
                }
            },
            None => {},
        }
        match ticket_type.fee_schedule.percent_fee_bps {
            Some(bps) => {
                if bps > MAX_FEE_BPS {
                    return Err(EngineError::InvalidState);
                }
            },
            None => {},
        }
        if !tiers_within_bounds(&ticket_type.pricing_tiers) {
            return Err(EngineError::InvalidState);
        }
        let ghost pre = *self;
        let ghost id = ticket_type.id;
        let row_result = self.ledger.add_ticket_type(ticket_type.id, total);
        proof {
            assert(row_result is Ok);
        }
        self.ticket_types.push(ticket_type);
        proof {
            assert forall|t: u64| #[trigger] self.ledger.spec_has(t) implies self.ledger.spec_row(
                t,
            ).held == open_holds(self.carts@, t) by {
                if t == id {
                    crate::cart::lemma_open_holds_absent(self.carts@, t);
                } else {
                    assert(pre.ledger.spec_has(t));
                }
            }
            assert forall|i2: int, j2: int|
                0 <= i2 < j2 < self.ticket_types@.len() implies self.ticket_types@[i2].id
                != self.ticket_types@[j2].id by {
                if j2 == self.ticket_types@.len() - 1 {
                    assert(self.ticket_types@[i2] == pre.ticket_types@[i2]);
                    assert(!pre.spec_has_ticket_type(id));
                }
            }
        }
        Ok(())
    }

    /// The identifier of `user_id`'s one open cart.  Fails with
    /// `NotFound` if and only if the buyer has no open cart.
    pub fn find_cart_for_user(&self, user_id: u64) -> (r: Result<u64, EngineError>)
        requires
            self.wf(),
        ensures
            r is Ok <==> self.spec_has_open_cart(user_id),
            match r {
                Ok(i) => i < self.carts@.len() && i as int == self.spec_open_cart_index(user_id),
                Err(e) => e == EngineError::NotFound,
            },
    {
        let n = self.carts.len();
        let mut i: usize = 0;
        while i < n
            invariant
                i <= n,
                n == self.carts@.len(),
                self.wf(),
                forall|k: int|
                    0 <= k < i ==> !((#[trigger] self.carts@[k]).status == CartStatus::Open
                        && self.carts@[k].user_id == user_id),
            decreases n - i,
        {
            let is_open = match self.carts[i].status {
                CartStatus::Open => true,
                _ => false,
            };
            if is_open && self.carts[i].user_id == user_id {
                proof {
                    self.lemma_open_cart_index(user_id, i as int);
                }
                return Ok(i as u64);
            }
            i += 1;
        }
        Err(EngineError::NotFound)
    }

    /// The identifier of `user_id`'s open cart, creating an empty one
    /// stamped `now` if none exists.  Creating a second open cart for
    /// one buyer is conflated into reusing the existing one, so the
    /// (buyer, open) key stays unique.
    pub fn find_or_create_cart(&mut self, user_id: u64, now: i64) -> (cart_id: u64)
        requires
            old(self).wf(),
        ensures
            final(self).wf(),
            final(self).spec_has_cart(cart_id),
            final(self).spec_cart(cart_id).status == CartStatus::Open,
            final(self).spec_cart(cart_id).user_id == user_id,
            old(self).spec_has_open_cart(user_id) ==> *final(self) == *old(self)
                && cart_id as int == old(self).spec_open_cart_index(user_id),
            !old(self).spec_has_open_cart(user_id)
                ==> final(self).carts@.len() == old(self).carts@.len() + 1
                && cart_id as int == old(self).carts@.len()
                && final(self).spec_cart(cart_id) == (Cart {
                id: cart_id,
                user_id,
                on_behalf_of_user_id: None,
                status: CartStatus::Open,
                items: final(self).spec_cart(cart_id).items,
                payments: final(self).spec_cart(cart_id).payments,
                last_updated_at: now,
            }) && final(self).spec_cart(cart_id).items@.len() == 0 && final(self).spec_cart(
                cart_id,
            ).payments@.len() == 0,
            !old(self).spec_has_open_cart(user_id) ==> forall|i: int|
                0 <= i < old(self).carts@.len() ==> final(self).carts@[i] == old(self).carts@[i],
            final(self).ledger == old(self).ledger,
            final(self).ticket_types@ == old(self).ticket_types@,
    {
        match self.find_cart_for_user(user_id) {
            Ok(cart_id) => cart_id,
            Err(_) => {
                let cart_id = self.carts.len() as u64;
                let cart = Cart {
                    id: cart_id,
                    user_id,
                    on_behalf_of_user_id: None,
                    status: CartStatus::Open,
                    items: Vec::new(),
                    payments: Vec::new(),
                    last_updated_at: now,
                };
                let ghost pre = *self;
                self.carts.push(cart);
                proof {
                    assert forall|t: u64| #[trigger] self.ledger.spec_has(t)
                        implies self.ledger.spec_row(t).held == open_holds(self.carts@, t) by {
                        lemma_open_holds_push(pre.carts@, self.carts@.last(), t);
                    }
                }
                cart_id
            },
        }
    }
}

/// What one requested line would fail with, checked against the
/// pre-call catalog and ledger and the cart items given as `items`:
/// the ticket type must exist in catalog and ledger, the quantity
/// change must fit the row's capacity, and a non-zero quantity must
/// resolve to a price.
pub open spec fn spec_line_error_for(
    store: BoxOffice,
    items: Seq<OrderItem>,
    line: UpdateOrderItem,
    now: i64,
) -> Option<EngineError> {
    let t = line.ticket_type_id;
    if !store.spec_has_ticket_type(t) || !store.ledger.spec_has(t) {
        Some(EngineError::NotFound)
    } else if store.ledger.spec_row(t).held - items_hold(items, t) + line.quantity
        + store.ledger.spec_row(t).sold > store.ledger.spec_row(t).total {
        Some(EngineError::CapacityExceeded)
    } else if line.quantity > 0 && !store.spec_ticket_type(t).spec_has_quote(
        now,
        line.redemption_code,
    ) {
        Some(store.spec_ticket_type(t).spec_quote_error(now, line.redemption_code))
    } else {
        None
    }
}

/// The same check against a cart's current lines.  Lines of one call
/// touch independent rows, so checking every line against the
/// pre-call state is exactly the sequential semantics.
pub open spec fn spec_line_error(
    store: BoxOffice,
    cart: Cart,
    line: UpdateOrderItem,
    now: i64,
) -> Option<EngineError> {
    spec_line_error_for(store, cart.items@, line, now)
}

/// The error of the first failing line, or `None` when every line
/// passes; an `update_quantities` call applies all lines or none.
pub open spec fn spec_first_line_error(
    store: BoxOffice,
    cart: Cart,
    updates: Seq<UpdateOrderItem>,
    now: i64,
) -> Option<EngineError>
    decreases updates.len(),
{
    if updates.len() == 0 {
        None
    } else if spec_line_error(store, cart, updates[0], now) is Some {
        spec_line_error(store, cart, updates[0], now)
    } else {
        spec_first_line_error(store, cart, updates.drop_first(), now)
    }
}

/// `spec_first_line_error` is `None` exactly when every line passes,
/// and otherwise is the error of the earliest failing line.
#[verifier::rlimit(100)]
pub proof fn lemma_first_line_error(
    store: BoxOffice,
    cart: Cart,
    updates: Seq<UpdateOrderItem>,
    now: i64,
)
    ensures
        (spec_first_line_error(store, cart, updates, now) is None) <==> (forall|k: int|
            0 <= k < updates.len() ==> (#[trigger] spec_line_error(
                store,
                cart,
                updates[k],
                now,
            )) is None),
        forall|i: int|
            (0 <= i < updates.len() && (#[trigger] spec_line_error(
                store,
                cart,
                updates[i],
                now,
            )) is Some && (forall|k: int|
                0 <= k < i ==> (#[trigger] spec_line_error(store, cart, updates[k], now)) is None))
                ==> spec_first_line_error(store, cart, updates, now) == spec_line_error(
                store,
                cart,
                updates[i],
                now,
            ),
    decreases updates.len(),
{
    if updates.len() > 0 {
        let rest = updates.drop_first();
        lemma_first_line_error(store, cart, rest, now);
        assert(forall|k: int| 0 <= k < rest.len() ==> rest[k] == updates[k + 1]);
        assert forall|i: int|
            (0 <= i < updates.len() && (#[trigger] spec_line_error(
                store,
                cart,
                updates[i],
                now,
            )) is Some && (forall|k: int|
                0 <= k < i ==> (#[trigger] spec_line_error(store, cart, updates[k], now)) is None))
            implies spec_first_line_error(store, cart, updates, now) == spec_line_error(
            store,
            cart,
            updates[i],
            now,
        ) by {
            if i > 0 {
                assert(spec_line_error(store, cart, updates[0], now) is None);
                assert(rest[i - 1] == updates[i]);
                assert forall|k: int| 0 <= k < i - 1 implies (#[trigger] spec_line_error(
                    store,
                    cart,
                    rest[k],
                    now,
                )) is None by {
                    assert(rest[k] == updates[k + 1]);
                }
            }
        }
        if forall|k: int|
            0 <= k < updates.len() ==> (#[trigger] spec_line_error(
                store,
                cart,
                updates[k],
                now,
            )) is None {
            assert(spec_line_error(store, cart, updates[0], now) is None);
        }
        if spec_first_line_error(store, cart, updates, now) is None {
            assert forall|k: int|
                0 <= k < updates.len() implies (#[trigger] spec_line_error(
                store,
                cart,
                updates[k],
                now,
            )) is None by {
                if k > 0 {
                    assert(rest[k - 1] == updates[k]);
                }
            }
        }
    }
}

/// The item snapshot a successful line leaves in the cart: the
/// requested quantity and code, under the price, fee and tier the
/// resolver returns at `now` against the pre-call catalog.
pub open spec fn spec_updated_item(store: BoxOffice, line: UpdateOrderItem, now: i64) -> OrderItem {
    let quote = store.spec_ticket_type(line.ticket_type_id).spec_quote(now, line.redemption_code);
    OrderItem {
        ticket_type_id: line.ticket_type_id,
        quantity: line.quantity,
        unit_price_in_cents: quote.unit_price_in_cents,
        fee_in_cents: quote.fee_in_cents,
        pricing_tier_id: quote.pricing_tier_id,
        redemption_code: line.redemption_code,
    }
}

/// How an `update_quantities` call rewrites a cart's items: every
/// requested line with a positive quantity stands in the result with a
/// freshly resolved snapshot, every zero-quantity line is gone, and
/// every line the call did not name is exactly as it was.
pub open spec fn items_updated(
    pre_items: Seq<OrderItem>,
    post_items: Seq<OrderItem>,
    store: BoxOffice,
    updates: Seq<UpdateOrderItem>,
    now: i64,
) -> bool {
    &&& forall|k: int|
        0 <= k < updates.len() && updates[k].quantity > 0 ==> items_contain(
            post_items,
            (#[trigger] updates[k]).ticket_type_id,
        ) && post_items[item_index_of(post_items, updates[k].ticket_type_id)]
            == spec_updated_item(store, updates[k], now)
    &&& forall|k: int|
        0 <= k < updates.len() && updates[k].quantity == 0 ==> !items_contain(
            post_items,
            (#[trigger] updates[k]).ticket_type_id,
        )
    &&& forall|t: u64|
        !updates_contain(updates, t) ==> #[trigger] items_contain(post_items, t) == items_contain(
            pre_items,
            t,
        ) && (items_contain(pre_items, t) ==> post_items[item_index_of(post_items, t)]
            == pre_items[item_index_of(pre_items, t)])
}

/// Applies one already-checked line of an update: adjusts the ledger
/// hold for the line's ticket type by the difference against the
/// items' current quantity, and rewrites the line's snapshot (a zero
/// quantity removes the line).  The preconditions are exactly what a
/// passing line check establishes.
#[verifier::rlimit(60)]
fn apply_line(
    ledger: &mut InventoryLedger,
    items: &mut Vec<OrderItem>,
    line: UpdateOrderItem,
    quote: PriceQuote,
)
    requires
        old(ledger).wf(),
        items_unique(old(items)@),
        forall|j: int| 0 <= j < old(items)@.len() ==> (#[trigger] old(items)@[j]).quantity >= 1,
        forall|j: int|
            0 <= j < old(items)@.len() ==> (#[trigger] old(items)@[j]).unit_price_in_cents
                + old(items)@[j].fee_in_cents <= u32::MAX,
        forall|j: int|
            0 <= j < old(items)@.len() ==> old(ledger).spec_has(
                (#[trigger] old(items)@[j]).ticket_type_id,
            ),
        old(ledger).spec_has(line.ticket_type_id),
        items_hold(old(items)@, line.ticket_type_id) <= old(ledger).spec_row(
            line.ticket_type_id,
        ).held,
        old(ledger).spec_row(line.ticket_type_id).held - items_hold(
            old(items)@,
            line.ticket_type_id,
        ) + line.quantity + old(ledger).spec_row(line.ticket_type_id).sold <= old(ledger).spec_row(line.ticket_type_id).total,
        line.quantity > 0 ==> quote.wf(),
    ensures
        final(ledger).wf(),
        forall|t: u64| #[trigger] final(ledger).spec_has(t) == old(ledger).spec_has(t),
        forall|t: u64|
            t != line.ticket_type_id && old(ledger).spec_has(t) ==> #[trigger] final(ledger).spec_row(t) == old(ledger).spec_row(t),
        final(ledger).spec_row(line.ticket_type_id) == (LedgerRow {
            held: (old(ledger).spec_row(line.ticket_type_id).held - items_hold(
                old(items)@,
                line.ticket_type_id,
            ) + line.quantity) as u32,
            ..old(ledger).spec_row(line.ticket_type_id)
        }),
        items_unique(final(items)@),
        forall|j: int| 0 <= j < final(items)@.len() ==> (#[trigger] final(items)@[j]).quantity >= 1,
        forall|j: int|
            0 <= j < final(items)@.len() ==> (#[trigger] final(items)@[j]).unit_price_in_cents
                + final(items)@[j].fee_in_cents <= u32::MAX,
        forall|j: int|
            0 <= j < final(items)@.len() ==> old(ledger).spec_has(
                (#[trigger] final(items)@[j]).ticket_type_id,
            ),
        forall|t: u64|
            t != line.ticket_type_id ==> #[trigger] items_hold(final(items)@, t) == items_hold(
                old(items)@,
                t,
            ),
        forall|t: u64|
            t != line.ticket_type_id ==> #[trigger] items_contain(final(items)@, t)
                == items_contain(old(items)@, t),
        forall|t: u64|
            t != line.ticket_type_id && items_contain(old(items)@, t) ==> final(items)@[
                #[trigger] item_index_of(final(items)@, t)] == old(items)@[item_index_of(
                old(items)@,
                t,
            )],
        line.quantity > 0 ==> items_contain(final(items)@, line.ticket_type_id) && final(items)@[
            item_index_of(final(items)@, line.ticket_type_id)] == (OrderItem {
            ticket_type_id: line.ticket_type_id,
            quantity: line.quantity,
            unit_price_in_cents: quote.unit_price_in_cents,
            fee_in_cents: quote.fee_in_cents,
            pricing_tier_id: quote.pricing_tier_id,
            redemption_code: line.redemption_code,
        }) && items_hold(final(items)@, line.ticket_type_id) == line.quantity,
        line.quantity == 0 ==> !items_contain(final(items)@, line.ticket_type_id) && items_hold(
            final(items)@,
            line.ticket_type_id,
        ) == 0,
{
    let t = line.ticket_type_id;
    let ghost items_before = items@;
    let cur_idx = find_item(items, t);
    let cur: u32 = match cur_idx {
        Some(j) => items[j].quantity,
        None => 0,
    };
    proof {
        lemma_items_hold_unique(items@, t);
        assert(items_hold(items@, t) == cur);
    }
    let delta: i64 = line.quantity as i64 - cur as i64;
    let res = ledger.reserve(t, delta);
    match res {
        Ok(_) => {},
        Err(_) => {
            proof {
                assert(false);
            }
        },
    }
    let new_item = OrderItem {
        ticket_type_id: t,
        quantity: line.quantity,
        unit_price_in_cents: quote.unit_price_in_cents,
        fee_in_cents: quote.fee_in_cents,
        pricing_tier_id: quote.pricing_tier_id,
        redemption_code: line.redemption_code,
    };
    match cur_idx {
        Some(j) => {
            if line.quantity > 0 {
                items.set(j, new_item);
                proof {
                    assert forall|t2: u64| #[trigger] items_hold(items@, t2) == items_hold(
                        items_before,
                        t2,
                    ) - item_hold(items_before[j as int], t2) + item_hold(new_item, t2) by {
                        lemma_items_hold_update(items_before, j as int, new_item, t2);
                    }
                    assert forall|t2: u64| t2 != t implies #[trigger] items_contain(items@, t2)
                        == items_contain(items_before, t2) by {
                        if items_contain(items_before, t2) {
                            let k = choose|k: int|
                                0 <= k < items_before.len() && items_before[k].ticket_type_id
                                    == t2;
                            assert(items@[k].ticket_type_id == t2);
                        }
                        if items_contain(items@, t2) {
                            let k = choose|k: int|
                                0 <= k < items@.len() && items@[k].ticket_type_id == t2;
                            assert(items_before[k].ticket_type_id == t2);
                        }
                    }
                    assert forall|t2: u64|
                        t2 != t && items_contain(items_before, t2) implies items@[item_index_of(
                        items@,
                        t2,
                    )] == items_before[item_index_of(items_before, t2)] by {
                        let k = item_index_of(items_before, t2);
                        lemma_item_index(items_before, t2, k);
                        lemma_item_index(items@, t2, k);
                    }
                    lemma_item_index(items@, t, j as int);
                }
            } else {
                items.remove(j);
                proof {
                    assert forall|t2: u64| #[trigger] items_hold(items@, t2) == items_hold(
                        items_before,
                        t2,
                    ) - item_hold(items_before[j as int], t2) by {
                        lemma_items_hold_remove(items_before, j as int, t2);
                    }
                    assert forall|t2: u64| t2 != t implies #[trigger] items_contain(items@, t2)
                        == items_contain(items_before, t2) by {
                        if items_contain(items_before, t2) {
                            let k = item_index_of(items_before, t2);
                            lemma_item_index(items_before, t2, k);
                            if k < j as int {
                                assert(items@[k] == items_before[k]);
                                assert(items_contain(items@, t2));
                            } else {
                                assert(items@[k - 1] == items_before[k]);
                                assert(items_contain(items@, t2));
                            }
                        }
                        if items_contain(items@, t2) {
                            let k = item_index_of(items@, t2);
                            lemma_item_index(items@, t2, k);
                            if k < j as int {
                                assert(items_before[k] == items@[k]);
                                assert(items_contain(items_before, t2));
                            } else {
                                assert(items_before[k + 1] == items@[k]);
                                assert(items_contain(items_before, t2));
                            }
                        }
                    }
                    assert forall|t2: u64|
                        t2 != t && items_contain(items_before, t2) implies items@[item_index_of(
                        items@,
                        t2,
                    )] == items_before[item_index_of(items_before, t2)] by {
                        let k = item_index_of(items_before, t2);
                        lemma_item_index(items_before, t2, k);
                        if k < j as int {
                            lemma_item_index(items@, t2, k);
                        } else {
                            lemma_item_index(items@, t2, k - 1);
                        }
                    }
                    assert(!items_contain(items@, t)) by {
                        if items_contain(items@, t) {
                            let k = item_index_of(items@, t);
                            lemma_item_index(items@, t, k);
                            if k < j as int {
                                assert(items_before[k].ticket_type_id == t);
                                lemma_item_index(items_before, t, k);
                            } else {
                                assert(items_before[k + 1].ticket_type_id == t);
                                lemma_item_index(items_before, t, k + 1);
                            }
                        }
                    }
                    lemma_items_hold_absent(items@, t);
                }
            }
        },
        None => {
            if line.quantity > 0 {
                items.push(new_item);
                proof {
                    assert forall|t2: u64| #[trigger] items_hold(items@, t2) == items_hold(
                        items_before,
                        t2,
                    ) + item_hold(new_item, t2) by {
                        lemma_items_hold_push(items_before, new_item, t2);
                    }
                    assert forall|t2: u64| t2 != t implies #[trigger] items_contain(items@, t2)
                        == items_contain(items_before, t2) by {
                        if items_contain(items_before, t2) {
                            let k = choose|k: int|
                                0 <= k < items_before.len() && items_before[k].ticket_type_id
                                    == t2;
                            assert(items@[k].ticket_type_id == t2);
                        }
                        if items_contain(items@, t2) {
                            let k = choose|k: int|
                                0 <= k < items@.len() && items@[k].ticket_type_id == t2;
                            assert(items_before[k].ticket_type_id == t2);
                        }
                    }
                    assert forall|t2: u64|
                        t2 != t && items_contain(items_before, t2) implies items@[item_index_of(
                        items@,
                        t2,
                    )] == items_before[item_index_of(items_before, t2)] by {
                        let k = item_index_of(items_before, t2);
                        lemma_item_index(items_before, t2, k);
                        lemma_item_index(items@, t2, k);
                    }
                    lemma_item_index(items@, t, items_before.len() as int);
                }
            } else {
                proof {
                    lemma_items_hold_unique(items@, t);
                }
            }
        },
    }
}

impl BoxOffice {
    /// Sets the cart's quantity for each requested ticket type as one
    /// atomic operation, adjusting the ledger holds by the difference
    /// against the cart's current lines and snapshotting a freshly
    /// resolved price onto every kept line; a requested quantity of
    /// zero removes the line and fully releases its hold.
    ///
    /// The whole set of lines is applied or none of it: the call
    /// checks every line against the pre-call state (the lines name
    /// distinct ticket types, so their ledger rows are independent)
    /// and mutates only when all pass, so a partial multi-line update
    /// is never visible.  In the deployed store the same all-or-
    /// nothing shape is one transaction taking its row locks in
    /// sorted ticket-type order to avoid deadlock.
    ///
    /// Fails with `NotFound` when the cart or a named ticket type does
    /// not exist, `InvalidState` when the cart is not open,
    /// `CapacityExceeded` when a line would oversell its row, and the
    /// resolver's `NoActiveTier` / `InvalidDiscountCode` when a kept
    /// line has no price — each exactly as `spec_first_line_error`
    /// says, and on failure the store is unchanged.
    #[verifier::loop_isolation(false)]
    #[verifier::rlimit(100)]
    #[verifier::spinoff_prover]
    pub fn update_quantities(
        &mut self,
        cart_id: u64,
        updates: &Vec<UpdateOrderItem>,
        now: i64,
    ) -> (r: Result<(), EngineError>)
        requires
            old(self).wf(),
            updates_unique(updates@),
        ensures
            final(self).wf(),
            r is Ok <==> old(self).spec_has_cart(cart_id) && old(self).spec_cart(cart_id).status
                == CartStatus::Open && spec_first_line_error(
                *old(self),
                old(self).spec_cart(cart_id),
                updates@,
                now,
            ) is None,
            match r {
                Ok(_) => true,
                Err(e) => *final(self) == *old(self) && e == (
                if !old(self).spec_has_cart(cart_id) {
                    EngineError::NotFound
                } else if old(self).spec_cart(cart_id).status != CartStatus::Open {
                    EngineError::InvalidState
                } else {
                    match spec_first_line_error(
                        *old(self),
                        old(self).spec_cart(cart_id),
                        updates@,
                        now,
                    ) {
                        Some(e2) => e2,
                        None => e,
                    }
                }),
            },
            r is Ok ==> {
                &&& final(self).ticket_types@ == old(self).ticket_types@
                &&& final(self).carts@.len() == old(self).carts@.len()
                &&& forall|i: int|
                    0 <= i < old(self).carts@.len() && i != cart_id ==> final(self).carts@[i]
                        == old(self).carts@[i]
                &&& forall|t: u64|
                    #[trigger] final(self).ledger.spec_has(t) == old(self).ledger.spec_has(t)
                &&& forall|t: u64|
                    !updates_contain(updates@, t) && old(self).ledger.spec_has(t)
                        ==> #[trigger] final(self).ledger.spec_row(t) == old(self).ledger.spec_row(
                        t,
                    )
                &&& forall|k: int|
                    0 <= k < updates@.len() ==> #[trigger] final(self).ledger.spec_row(
                        updates@[k].ticket_type_id,
                    ) == (LedgerRow {
                        held: (old(self).ledger.spec_row(updates@[k].ticket_type_id).held
                            - items_hold(
                            old(self).spec_cart(cart_id).items@,
                            updates@[k].ticket_type_id,
                        ) + updates@[k].quantity) as u32,
                        ..old(self).ledger.spec_row(updates@[k].ticket_type_id)
                    })
            },
            r is Ok ==> final(self).spec_cart(cart_id).id == old(self).spec_cart(cart_id).id
                && final(self).spec_cart(cart_id).user_id == old(self).spec_cart(cart_id).user_id
                && final(self).spec_cart(cart_id).on_behalf_of_user_id == old(self).spec_cart(
                cart_id,
            ).on_behalf_of_user_id && final(self).spec_cart(cart_id).status == CartStatus::Open
                && final(self).spec_cart(cart_id).payments@ == old(self).spec_cart(
                cart_id,
            ).payments@ && final(self).spec_cart(cart_id).last_updated_at == now,
            r is Ok ==> items_updated(
                old(self).spec_cart(cart_id).items@,
                final(self).spec_cart(cart_id).items@,
                *old(self),
                updates@,
                now,
            ),
    {
        let ghost pre = *self;
        let n_carts = self.carts.len();
        if !(cart_id < n_carts as u64) {
            return Err(EngineError::NotFound);
        }
        let ci = cart_id as usize;
        let cart_open = match self.carts[ci].status {
            CartStatus::Open => true,
            _ => false,
        };
        if !cart_open {
            return Err(EngineError::InvalidState);
        }
        let ghost cart0 = pre.carts@[ci as int];
        proof {
            lemma_first_line_error(pre, cart0, updates@, now);
        }

        // Check every line against the pre-call state, resolving the
        // price each kept line will snapshot; nothing is mutated yet.
        let n = updates.len();
        let mut quotes: Vec<PriceQuote> = Vec::new();
        let mut i: usize = 0;
        while i < n
            invariant
                i <= n,
                quotes@.len() == i,
                forall|k: int|
                    0 <= k < i ==> (#[trigger] spec_line_error(pre, cart0, updates@[k], now))
                        is None,
                forall|k: int|
                    0 <= k < i && updates@[k].quantity > 0 ==> (#[trigger] quotes@[k])
                        == pre.spec_ticket_type(updates@[k].ticket_type_id).spec_quote(
                        now,
                        updates@[k].redemption_code,
                    ) && quotes@[k].wf(),
            decreases n - i,
        {
            let line = updates[i];
            let t = line.ticket_type_id;
            let tt_idx = match self.find_ticket_type(t) {
                Some(x) => x,
                None => {
                    proof {
                        assert(spec_line_error(pre, cart0, updates@[i as int], now)
                            == Some(EngineError::NotFound));
                        assert(spec_first_line_error(pre, cart0, updates@, now)
                            == Some(EngineError::NotFound));
                    }
                    return Err(EngineError::NotFound);
                },
            };
            proof {
                self.lemma_ticket_type_index(t, tt_idx as int);
            }
            let row = match self.ledger.row(t) {
                Ok(row) => row,
                Err(_) => {
                    proof {
                        assert(spec_line_error(pre, cart0, updates@[i as int], now)
                            == Some(EngineError::NotFound));
                        assert(spec_first_line_error(pre, cart0, updates@, now)
                            == Some(EngineError::NotFound));
                    }
                    return Err(EngineError::NotFound);
                },
            };
            let cur: u32 = match find_item(&self.carts[ci].items, t) {
                Some(j) => self.carts[ci].items[j].quantity,
                None => 0,
            };
            proof {
                assert(cart0.wf());
                lemma_items_hold_unique(cart0.items@, t);
                assert(items_hold(cart0.items@, t) == cur);
            }
            if row.held as i128 - cur as i128 + line.quantity as i128 + row.sold as i128
                > row.total as i128 {
                proof {
                    assert(spec_line_error(pre, cart0, updates@[i as int], now)
                        == Some(EngineError::CapacityExceeded));
                    assert(spec_first_line_error(pre, cart0, updates@, now)
                        == Some(EngineError::CapacityExceeded));
                }
                return Err(EngineError::CapacityExceeded);
            }
            if line.quantity > 0 {
                let quote = match self.ticket_types[tt_idx].price_for(now, line.redemption_code) {
                    Ok(q) => q,
                    Err(e) => {
                        proof {
                            assert(spec_line_error(pre, cart0, updates@[i as int], now)
                                == Some(e));
                            assert(spec_first_line_error(pre, cart0, updates@, now) == Some(e));
                        }
                        return Err(e);
                    },
                };
                quotes.push(quote);
            } else {
                quotes.push(
                    PriceQuote { unit_price_in_cents: 0, fee_in_cents: 0, pricing_tier_id: 0 },
                );
            }
            i += 1;
        }

        // Every line passes: apply them all.  Each step keeps the
        // ledger's invariant; the store invariant is restored when the
        // rewritten cart is put back.
        let mut items = copy_items(&self.carts[ci].items);
        let mut i: usize = 0;
        while i < n
            invariant
                i <= n,
                self.ticket_types == pre.ticket_types,
                self.carts == pre.carts,
                self.ledger.wf(),
                forall|t: u64| #[trigger] self.ledger.spec_has(t) == pre.ledger.spec_has(t),
                forall|t: u64|
                    (forall|k: int| 0 <= k < i ==> (#[trigger] updates@[k]).ticket_type_id != t)
                        && pre.ledger.spec_has(t) ==> #[trigger] self.ledger.spec_row(t)
                        == pre.ledger.spec_row(t),
                forall|k: int|
                    0 <= k < i ==> #[trigger] self.ledger.spec_row(updates@[k].ticket_type_id)
                        == (LedgerRow {
                        held: (pre.ledger.spec_row(updates@[k].ticket_type_id).held - items_hold(
                            cart0.items@,
                            updates@[k].ticket_type_id,
                        ) + updates@[k].quantity) as u32,
                        ..pre.ledger.spec_row(updates@[k].ticket_type_id)
                    }),
                items_unique(items@),
                forall|j: int| 0 <= j < items@.len() ==> (#[trigger] items@[j]).quantity >= 1,
                forall|j: int|
                    0 <= j < items@.len() ==> (#[trigger] items@[j]).unit_price_in_cents
                        + items@[j].fee_in_cents <= u32::MAX,
                forall|j: int|
                    0 <= j < items@.len() ==> pre.ledger.spec_has(
                        (#[trigger] items@[j]).ticket_type_id,
                    ),
                forall|t: u64|
                    (forall|k: int| 0 <= k < i ==> (#[trigger] updates@[k]).ticket_type_id != t)
                        ==> #[trigger] items_hold(items@, t) == items_hold(cart0.items@, t),
                forall|t: u64|
                    (forall|k: int| 0 <= k < i ==> (#[trigger] updates@[k]).ticket_type_id != t)
                        ==> #[trigger] items_contain(items@, t) == items_contain(cart0.items@, t)
                        && (items_contain(cart0.items@, t) ==> items@[item_index_of(items@, t)]
                        == cart0.items@[item_index_of(cart0.items@, t)]),
                forall|k: int|
                    0 <= k < i && (#[trigger] updates@[k]).quantity > 0 ==> items_contain(
                        items@,
                        updates@[k].ticket_type_id,
                    ) && items@[item_index_of(items@, updates@[k].ticket_type_id)]
                        == spec_updated_item(pre, updates@[k], now) && items_hold(
                        items@,
                        updates@[k].ticket_type_id,
                    ) == updates@[k].quantity,
                forall|k: int|
                    0 <= k < i && (#[trigger] updates@[k]).quantity == 0 ==> !items_contain(
                        items@,
                        updates@[k].ticket_type_id,
                    ) && items_hold(items@, updates@[k].ticket_type_id) == 0,
            decreases n - i,
        {
            let line = updates[i];
            let t = line.ticket_type_id;
            let ghost items_before = items@;
            let ghost ledger_before = self.ledger;
            proof {
                assert(spec_line_error(pre, cart0, updates@[i as int], now) is None);
                assert forall|k: int| 0 <= k < i implies (#[trigger] updates@[k]).ticket_type_id
                    != t by {}
                assert(pre.ledger.spec_has(t));
                assert(self.ledger.spec_row(t) == pre.ledger.spec_row(t));
                assert(items_hold(items@, t) == items_hold(cart0.items@, t));
                lemma_cart_hold_le_open_holds(pre.carts@, ci as int, t);
                assert(cart_hold(pre.carts@[ci as int], t) == items_hold(cart0.items@, t));
                assert(items_hold(items@, t) <= self.ledger.spec_row(t).held);
            }
            let quote = quotes[i];
            apply_line(&mut self.ledger, &mut items, line, quote);
            proof {
                assert(items@[item_index_of(items@, t)] == spec_updated_item(
                    pre,
                    updates@[i as int],
                    now,
                ) || line.quantity == 0);
                assert forall|k: int|
                    0 <= k < i + 1 implies #[trigger] self.ledger.spec_row(
                    updates@[k].ticket_type_id,
                ) == (LedgerRow {
                    held: (pre.ledger.spec_row(updates@[k].ticket_type_id).held - items_hold(
                        cart0.items@,
                        updates@[k].ticket_type_id,
                    ) + updates@[k].quantity) as u32,
                    ..pre.ledger.spec_row(updates@[k].ticket_type_id)
                }) by {
                    if k < i {
                        assert(updates@[k].ticket_type_id != t);
                        assert(spec_line_error(pre, cart0, updates@[k], now) is None);
                        assert(pre.ledger.spec_has(updates@[k].ticket_type_id));
                        assert(ledger_before.spec_has(updates@[k].ticket_type_id));
                        assert(ledger_before.spec_row(updates@[k].ticket_type_id)
                            == self.ledger.spec_row(updates@[k].ticket_type_id));
                    }
                }
            }
            i += 1;
        }

        // Put the rewritten cart back and restore the store invariant.
        let payments = copy_payments(&self.carts[ci].payments);
        let new_cart = Cart {
            id: cart_id,
            user_id: self.carts[ci].user_id,
            on_behalf_of_user_id: self.carts[ci].on_behalf_of_user_id,
            status: CartStatus::Open,
            items,
            payments,
            last_updated_at: now,
        };
        let ghost replaced = new_cart;
        self.carts.set(ci, new_cart);
        proof {
            assert(ci as u64 == cart_id);
            assert(self.carts@[cart_id as int] == replaced);
            assert(pre.carts@[cart_id as int] == cart0);
            assert forall|t: u64| !updates_contain(updates@, t) implies (forall|k: int|
                0 <= k < updates@.len() ==> (#[trigger] updates@[k]).ticket_type_id != t) by {
                assert forall|k: int|
                    0 <= k < updates@.len() implies (#[trigger] updates@[k]).ticket_type_id
                    != t by {
                    if updates@[k].ticket_type_id == t {
                        assert(updates_contain(updates@, t));
                    }
                }
            }
            assert(items_updated(cart0.items@, replaced.items@, pre, updates@, now)) by {
                assert forall|k: int|
                    0 <= k < updates@.len() && updates@[k].quantity > 0 implies items_contain(
                    replaced.items@,
                    (#[trigger] updates@[k]).ticket_type_id,
                ) && replaced.items@[item_index_of(
                    replaced.items@,
                    updates@[k].ticket_type_id,
                )] == spec_updated_item(pre, updates@[k], now) by {}
                assert forall|k: int|
                    0 <= k < updates@.len() && updates@[k].quantity == 0 implies !items_contain(
                    replaced.items@,
                    (#[trigger] updates@[k]).ticket_type_id,
                ) by {}
                assert forall|t: u64| !updates_contain(updates@, t) implies #[trigger]
                    items_contain(replaced.items@, t) == items_contain(cart0.items@, t) && (
                items_contain(cart0.items@, t) ==> replaced.items@[item_index_of(
                    replaced.items@,
                    t,
                )] == cart0.items@[item_index_of(cart0.items@, t)]) by {
                    assert forall|k: int|
                        0 <= k < updates@.len() implies (#[trigger] updates@[k]).ticket_type_id
                        != t by {
                        if updates@[k].ticket_type_id == t {
                            assert(updates_contain(updates@, t));
                        }
                    }
                    assert(items_contain(replaced.items@, t) == items_contain(cart0.items@, t));
                }
            }
            assert(self.spec_cart(cart_id).items@ == replaced.items@);
            assert(pre.spec_cart(cart_id).items@ == cart0.items@);
            assert forall|t: u64| #[trigger] self.ledger.spec_has(t) implies self.ledger.spec_row(
                t,
            ).held == open_holds(self.carts@, t) by {
                lemma_open_holds_update(pre.carts@, ci as int, replaced, t);
                assert(open_holds(self.carts@, t) == open_holds(pre.carts@, t) - items_hold(
                    cart0.items@,
                    t,
                ) + items_hold(replaced.items@, t));
                assert(pre.ledger.spec_has(t));
                assert(pre.ledger.spec_row(t).held == open_holds(pre.carts@, t));
                if updates_contain(updates@, t) {
                    let k = choose|k: int|
                        0 <= k < updates@.len() && updates@[k].ticket_type_id == t;
                    assert(spec_line_error(pre, cart0, updates@[k], now) is None);
                    lemma_cart_hold_le_open_holds(pre.carts@, ci as int, t);
                    assert(cart_hold(pre.carts@[ci as int], t) == items_hold(cart0.items@, t));
                    assert(pre.ledger.spec_row(t).held >= items_hold(cart0.items@, t));
                    assert(pre.ledger.spec_row(t).held - items_hold(cart0.items@, t)
                        + updates@[k].quantity + pre.ledger.spec_row(t).sold <= pre.ledger.spec_row(
                        t,
                    ).total);
                    assert(self.ledger.spec_row(t) == (LedgerRow {
                        held: (pre.ledger.spec_row(t).held - items_hold(cart0.items@, t)
                            + updates@[k].quantity) as u32,
                        ..pre.ledger.spec_row(t)
                    }));
                    if updates@[k].quantity > 0 {
                        assert(items_hold(replaced.items@, t) == updates@[k].quantity);
                    } else {
                        assert(items_hold(replaced.items@, t) == 0);
                    }
                } else {
                    assert(self.ledger.spec_row(t) == pre.ledger.spec_row(t));
                    assert(items_hold(replaced.items@, t) == items_hold(cart0.items@, t));
                }
            }
            assert forall|i2: int, k2: int|
                0 <= i2 < self.carts@.len() && 0 <= k2 < self.carts@[i2].items@.len()
                implies self.ledger.spec_has(
                (#[trigger] self.carts@[i2].items@[k2]).ticket_type_id,
            ) by {
                if i2 != ci as int {
                    assert(self.carts@[i2] == pre.carts@[i2]);
                    assert(pre.ledger.spec_has(pre.carts@[i2].items@[k2].ticket_type_id));
                }
            }
        }
        Ok(())
    }
}

/// Whether the sweeper reclaims this cart at `now`: open, and not
/// touched for longer than the time-to-live.
pub open spec fn cart_expired(cart: Cart, ttl_seconds: i64, now: i64) -> bool {
    cart.status == CartStatus::Open && now - cart.last_updated_at > ttl_seconds
}

/// How many carts of the collection the sweeper reclaims at `now`.
pub open spec fn count_expired(carts: Seq<Cart>, ttl_seconds: i64, now: i64) -> int
    decreases carts.len(),
{
    if carts.len() == 0 {
        0
    } else {
        count_expired(carts.drop_last(), ttl_seconds, now) + (if cart_expired(
            carts.last(),
            ttl_seconds,
            now,
        ) {
            1int
        } else {
            0int
        })
    }
}

/// What one `sweep_expired` call does: every open cart past the
/// time-to-live is transitioned to `Expired` with its lines and
/// payments kept, every other cart is untouched, the ledger's sold and
/// total columns never move, no cart is left expired-and-open, and a
/// sweep that finds nothing to reclaim changes nothing at all.
pub open spec fn sweep_applied(pre: BoxOffice, post: BoxOffice, ttl_seconds: i64, now: i64) -> bool {
    &&& post.ticket_types@ == pre.ticket_types@
    &&& post.carts@.len() == pre.carts@.len()
    &&& forall|i: int|
        0 <= i < pre.carts@.len() && !cart_expired((#[trigger] pre.carts@[i]), ttl_seconds, now)
            ==> post.carts@[i] == pre.carts@[i]
    &&& forall|i: int|
        0 <= i < pre.carts@.len() && cart_expired((#[trigger] pre.carts@[i]), ttl_seconds, now)
            ==> post.carts@[i].status == CartStatus::Expired && post.carts@[i].items@
            == pre.carts@[i].items@ && post.carts@[i].payments@ == pre.carts@[i].payments@
            && post.carts@[i].id == pre.carts@[i].id && post.carts@[i].user_id
            == pre.carts@[i].user_id && post.carts@[i].on_behalf_of_user_id
            == pre.carts@[i].on_behalf_of_user_id && post.carts@[i].last_updated_at
            == pre.carts@[i].last_updated_at
    &&& forall|t: u64| #[trigger] post.ledger.spec_has(t) == pre.ledger.spec_has(t)
    &&& forall|t: u64|
        pre.ledger.spec_has(t) ==> (#[trigger] post.ledger.spec_row(t)).sold
            == pre.ledger.spec_row(t).sold && post.ledger.spec_row(t).total
            == pre.ledger.spec_row(t).total && post.ledger.spec_row(t).ticket_type_id
            == pre.ledger.spec_row(t).ticket_type_id
    &&& forall|i: int|
        0 <= i < post.carts@.len() ==> !cart_expired((#[trigger] post.carts@[i]), ttl_seconds, now)
    &&& (forall|i: int|
        0 <= i < pre.carts@.len() ==> !cart_expired((#[trigger] pre.carts@[i]), ttl_seconds, now))
        ==> post == pre
}

/// Releases every item's hold, converting it to sold units when
/// `to_sold` is set (a payment's commit) and dropping it otherwise
/// (cancellation and expiry).  The items must name distinct ticket
/// types whose rows hold at least the items' quantities — which the
/// store invariant guarantees for any open cart's items.
#[verifier::rlimit(60)]
#[verifier::loop_isolation(false)]
fn settle_items(ledger: &mut InventoryLedger, items: &Vec<OrderItem>, to_sold: bool)
    requires
        old(ledger).wf(),
        items_unique(items@),
        forall|j: int|
            0 <= j < items@.len() ==> old(ledger).spec_has(
                (#[trigger] items@[j]).ticket_type_id,
            ),
        forall|j: int|
            0 <= j < items@.len() ==> (#[trigger] items@[j]).quantity <= old(ledger).spec_row(
                items@[j].ticket_type_id,
            ).held,
    ensures
        final(ledger).wf(),
        forall|t: u64| #[trigger] final(ledger).spec_has(t) == old(ledger).spec_has(t),
        forall|t: u64|
            old(ledger).spec_has(t) ==> #[trigger] final(ledger).spec_row(t) == (LedgerRow {
                held: (old(ledger).spec_row(t).held - items_hold(items@, t)) as u32,
                sold: (old(ledger).spec_row(t).sold + (if to_sold {
                    items_hold(items@, t)
                } else {
                    0
                })) as u32,
                ..old(ledger).spec_row(t)
            }),
{
    let ghost pre = *ledger;
    let n = items.len();
    let mut i: usize = 0;
    proof {
        assert forall|t: u64| items_hold(items@.take(0), t) == 0 by {}
    }
    while i < n
        invariant
            i <= n,
            n == items@.len(),
            ledger.wf(),
            forall|t: u64| #[trigger] ledger.spec_has(t) == pre.spec_has(t),
            forall|t: u64|
                pre.spec_has(t) ==> #[trigger] ledger.spec_row(t) == (LedgerRow {
                    held: (pre.spec_row(t).held - items_hold(items@.take(i as int), t)) as u32,
                    sold: (pre.spec_row(t).sold + (if to_sold {
                        items_hold(items@.take(i as int), t)
                    } else {
                        0
                    })) as u32,
                    ..pre.spec_row(t)
                }),
        decreases n - i,
    {
        let item = items[i];
        let t = item.ticket_type_id;
        let ghost before = *ledger;
        proof {
            assert forall|k: int| 0 <= k < i implies (#[trigger] items@[k]).ticket_type_id
                != t by {}
            lemma_items_hold_absent(items@.take(i as int), t);
            assert(items_hold(items@.take(i as int), t) == 0);
            assert(ledger.spec_row(t) == (LedgerRow {
                held: (pre.spec_row(t).held - 0) as u32,
                sold: (pre.spec_row(t).sold + 0) as u32,
                ..pre.spec_row(t)
            }));
            assert(ledger.spec_row(t).held == pre.spec_row(t).held);
            lemma_items_hold_nonneg(items@.take(i as int), t);
        }
        let res = if to_sold {
            ledger.commit_sale(t, item.quantity)
        } else {
            ledger.release(t, item.quantity)
        };
        match res {
            Ok(_) => {},
            Err(_) => {
                proof {
                    assert(false);
                }
            },
        }
        proof {
            assert forall|t2: u64| pre.spec_has(t2) implies #[trigger] ledger.spec_row(t2)
                == (LedgerRow {
                held: (pre.spec_row(t2).held - items_hold(items@.take(i as int + 1), t2)) as u32,
                sold: (pre.spec_row(t2).sold + (if to_sold {
                    items_hold(items@.take(i as int + 1), t2)
                } else {
                    0
                })) as u32,
                ..pre.spec_row(t2)
            }) by {
                assert(items@.take(i as int + 1).drop_last() =~= items@.take(i as int));
                assert(items@.take(i as int + 1).last() == items@[i as int]);
                assert(items_hold(items@.take(i as int + 1), t2) == items_hold(
                    items@.take(i as int),
                    t2,
                ) + item_hold(items@[i as int], t2));
                if t2 != t {
                    assert(before.spec_row(t2) == ledger.spec_row(t2));
                }
            }
        }
        i += 1;
    }
    proof {
        assert(items@.take(n as int) =~= items@);
    }
}

impl BoxOffice {
    /// The sum a buyer owes for the cart right now:
    /// `sum((unit_price + fee) * quantity)` over its lines, in cents.
    /// A pure read with no side effects; fails with `NotFound` if and
    /// only if the cart does not exist.
    pub fn calculate_total(&self, cart_id: u64) -> (r: Result<u128, EngineError>)
        requires
            self.wf(),
        ensures
            r is Ok <==> self.spec_has_cart(cart_id),
            match r {
                Ok(v) => v == items_total(self.spec_cart(cart_id).items@),
                Err(e) => e == EngineError::NotFound,
            },
    {
        let n_carts = self.carts.len();
        if !(cart_id < n_carts as u64) {
            return Err(EngineError::NotFound);
        }
        let ci = cart_id as usize;
        proof {
            assert(self.carts@[ci as int].wf());
        }
        Ok(items_total_exec(&self.carts[ci].items))
    }

    /// Attaches a distinct ticket-recipient identity to the open cart
    /// without changing ownership or payment responsibility.  Fails
    /// with `NotFound` if and only if the cart does not exist and with
    /// `InvalidState` if and only if it is not open; on failure the
    /// store is unchanged.
    pub fn set_behalf_of_user(&mut self, cart_id: u64, recipient_user_id: u64, now: i64) -> (r:
        Result<(), EngineError>)
        requires
            old(self).wf(),
        ensures
            final(self).wf(),
            r is Ok <==> old(self).spec_has_cart(cart_id) && old(self).spec_cart(cart_id).status
                == CartStatus::Open,
            r is Err ==> *final(self) == *old(self) && r == Result::<(), EngineError>::Err(
                if !old(self).spec_has_cart(cart_id) {
                    EngineError::NotFound
                } else {
                    EngineError::InvalidState
                },
            ),
            r is Ok ==> final(self).ledger == old(self).ledger && final(self).ticket_types@ == old(self).ticket_types@ && final(self).carts@.len() == old(self).carts@.len() && (forall|i: int|
                0 <= i < old(self).carts@.len() && i != cart_id ==> final(self).carts@[i] == old(self).carts@[i]),
            r is Ok ==> final(self).spec_cart(cart_id).on_behalf_of_user_id == Some(
                recipient_user_id,
            ) && final(self).spec_cart(cart_id).id == old(self).spec_cart(cart_id).id && final(self).spec_cart(cart_id).user_id == old(self).spec_cart(cart_id).user_id && final(self).spec_cart(cart_id).status == CartStatus::Open && final(self).spec_cart(
                cart_id,
            ).items@ == old(self).spec_cart(cart_id).items@ && final(self).spec_cart(
                cart_id,
            ).payments@ == old(self).spec_cart(cart_id).payments@ && final(self).spec_cart(
                cart_id,
            ).last_updated_at == now,
    {
        let ghost pre = *self;
        let n_carts = self.carts.len();
        if !(cart_id < n_carts as u64) {
            return Err(EngineError::NotFound);
        }
        let ci = cart_id as usize;
        let cart_open = match self.carts[ci].status {
            CartStatus::Open => true,
            _ => false,
        };
        if !cart_open {
            return Err(EngineError::InvalidState);
        }
        let items = copy_items(&self.carts[ci].items);
        let payments = copy_payments(&self.carts[ci].payments);
        let new_cart = Cart {
            id: self.carts[ci].id,
            user_id: self.carts[ci].user_id,
            on_behalf_of_user_id: Some(recipient_user_id),
            status: CartStatus::Open,
            items,
            payments,
            last_updated_at: now,
        };
        let ghost replaced = new_cart;
        self.carts.set(ci, new_cart);
        proof {
            assert(pre.carts@[ci as int].wf());
            assert forall|t: u64| #[trigger] self.ledger.spec_has(t) implies self.ledger.spec_row(
                t,
            ).held == open_holds(self.carts@, t) by {
                lemma_open_holds_update(pre.carts@, ci as int, replaced, t);
                assert(cart_hold(replaced, t) == cart_hold(pre.carts@[ci as int], t));
            }
        }
        Ok(())
    }

    /// Releases the open cart's holds back to the ledger and
    /// transitions it to `Cancelled`; the lines and payments stay on
    /// record.  Fails with `NotFound` if and only if the cart does not
    /// exist and with `InvalidState` if and only if it is not open; on
    /// failure the store is unchanged.
    #[verifier::rlimit(60)]
    pub fn cancel(&mut self, cart_id: u64) -> (r: Result<(), EngineError>)
        requires
            old(self).wf(),
        ensures
            final(self).wf(),
            r is Ok <==> old(self).spec_has_cart(cart_id) && old(self).spec_cart(cart_id).status
                == CartStatus::Open,
            r is Err ==> *final(self) == *old(self) && r == Result::<(), EngineError>::Err(
                if !old(self).spec_has_cart(cart_id) {
                    EngineError::NotFound
                } else {
                    EngineError::InvalidState
                },
            ),
            r is Ok ==> final(self).ticket_types@ == old(self).ticket_types@ && final(self).carts@.len() == old(self).carts@.len() && (forall|i: int|
                0 <= i < old(self).carts@.len() && i != cart_id ==> final(self).carts@[i] == old(self).carts@[i]),
            r is Ok ==> final(self).spec_cart(cart_id).status == CartStatus::Cancelled && final(self).spec_cart(cart_id).items@ == old(self).spec_cart(cart_id).items@ && final(self).spec_cart(cart_id).payments@ == old(self).spec_cart(cart_id).payments@ && final(self).spec_cart(cart_id).id == old(self).spec_cart(cart_id).id && final(self).spec_cart(
                cart_id,
            ).user_id == old(self).spec_cart(cart_id).user_id && final(self).spec_cart(
                cart_id,
            ).on_behalf_of_user_id == old(self).spec_cart(cart_id).on_behalf_of_user_id && final(self).spec_cart(cart_id).last_updated_at == old(self).spec_cart(cart_id).last_updated_at,
            r is Ok ==> (forall|t: u64|
                #[trigger] final(self).ledger.spec_has(t) == old(self).ledger.spec_has(t)) && (
            forall|t: u64|
                old(self).ledger.spec_has(t) ==> #[trigger] final(self).ledger.spec_row(t)
                    == (LedgerRow {
                    held: (old(self).ledger.spec_row(t).held - items_hold(
                        old(self).spec_cart(cart_id).items@,
                        t,
                    )) as u32,
                    ..old(self).ledger.spec_row(t)
                })),
    {
        let ghost pre = *self;
        let n_carts = self.carts.len();
        if !(cart_id < n_carts as u64) {
            return Err(EngineError::NotFound);
        }
        let ci = cart_id as usize;
        let cart_open = match self.carts[ci].status {
            CartStatus::Open => true,
            _ => false,
        };
        if !cart_open {
            return Err(EngineError::InvalidState);
        }
        let ghost cart0 = pre.carts@[ci as int];
        proof {
            assert(cart0.wf());
            assert forall|j: int|
                0 <= j < cart0.items@.len() implies (#[trigger] cart0.items@[j]).quantity
                <= pre.ledger.spec_row(cart0.items@[j].ticket_type_id).held by {
                let t = cart0.items@[j].ticket_type_id;
                lemma_items_hold_unique(cart0.items@, t);
                lemma_cart_hold_le_open_holds(pre.carts@, ci as int, t);
                assert(pre.ledger.spec_has(t));
            }
        }
        settle_items(&mut self.ledger, &self.carts[ci].items, false);
        let items = copy_items(&self.carts[ci].items);
        let payments = copy_payments(&self.carts[ci].payments);
        let new_cart = Cart {
            id: self.carts[ci].id,
            user_id: self.carts[ci].user_id,
            on_behalf_of_user_id: self.carts[ci].on_behalf_of_user_id,
            status: CartStatus::Cancelled,
            items,
            payments,
            last_updated_at: self.carts[ci].last_updated_at,
        };
        let ghost replaced = new_cart;
        self.carts.set(ci, new_cart);
        proof {
            assert forall|t: u64| #[trigger] self.ledger.spec_has(t) implies self.ledger.spec_row(
                t,
            ).held == open_holds(self.carts@, t) by {
                lemma_open_holds_update(pre.carts@, ci as int, replaced, t);
                assert(pre.ledger.spec_has(t));
                assert(pre.ledger.spec_row(t).held == open_holds(pre.carts@, t));
                lemma_cart_hold_le_open_holds(pre.carts@, ci as int, t);
                lemma_items_hold_nonneg(cart0.items@, t);
                assert(cart_hold(replaced, t) == 0);
                assert(cart_hold(pre.carts@[ci as int], t) == items_hold(cart0.items@, t));
            }
        }
        Ok(())
    }

    /// Records one result of the external payment gateway against the
    /// open cart.  A failed result is recorded and changes nothing
    /// else.  When the successful payments now cover the computed
    /// total, every line's hold is converted to sold units and the
    /// order transitions to `Paid`; the store invariant makes that
    /// ledger commit provably infallible, so the fatal reconciliation
    /// path of a drifted store can never be taken here.  Partial
    /// payments leave the order open.  Fails with `NotFound` if and
    /// only if the cart does not exist and with `InvalidState` if and
    /// only if it is not open (a late payment against an expired or
    /// cancelled cart gets `InvalidState`); on failure the store is
    /// unchanged.
    #[verifier::rlimit(60)]
    pub fn apply_payment(
        &mut self,
        cart_id: u64,
        provider_reference: u64,
        amount_in_cents: u64,
        succeeded: bool,
    ) -> (r: Result<(), EngineError>)
        requires
            old(self).wf(),
        ensures
            final(self).wf(),
            r is Ok <==> old(self).spec_has_cart(cart_id) && old(self).spec_cart(cart_id).status
                == CartStatus::Open,
            r is Err ==> *final(self) == *old(self) && r == Result::<(), EngineError>::Err(
                if !old(self).spec_has_cart(cart_id) {
                    EngineError::NotFound
                } else {
                    EngineError::InvalidState
                },
            ),
            r is Ok ==> final(self).ticket_types@ == old(self).ticket_types@ && final(self).carts@.len() == old(self).carts@.len() && (forall|i: int|
                0 <= i < old(self).carts@.len() && i != cart_id ==> final(self).carts@[i] == old(self).carts@[i]),
            r is Ok ==> final(self).spec_cart(cart_id).payments@ == old(self).spec_cart(
                cart_id,
            ).payments@.push(
                Payment { provider_reference, amount_in_cents, succeeded },
            ) && final(self).spec_cart(cart_id).items@ == old(self).spec_cart(cart_id).items@
                && final(self).spec_cart(cart_id).id == old(self).spec_cart(cart_id).id && final(self).spec_cart(cart_id).user_id == old(self).spec_cart(cart_id).user_id && final(self).spec_cart(cart_id).on_behalf_of_user_id == old(self).spec_cart(
                cart_id,
            ).on_behalf_of_user_id && final(self).spec_cart(cart_id).last_updated_at == old(self).spec_cart(cart_id).last_updated_at,
            r is Ok ==> final(self).spec_cart(cart_id).status == (if payments_total(
                old(self).spec_cart(cart_id).payments@.push(
                    Payment { provider_reference, amount_in_cents, succeeded },
                ),
            ) >= items_total(old(self).spec_cart(cart_id).items@) {
                CartStatus::Paid
            } else {
                CartStatus::Open
            }),
            r is Ok && payments_total(
                old(self).spec_cart(cart_id).payments@.push(
                    Payment { provider_reference, amount_in_cents, succeeded },
                ),
            ) < items_total(old(self).spec_cart(cart_id).items@) ==> final(self).ledger == old(self).ledger,
            r is Ok && payments_total(
                old(self).spec_cart(cart_id).payments@.push(
                    Payment { provider_reference, amount_in_cents, succeeded },
                ),
            ) >= items_total(old(self).spec_cart(cart_id).items@) ==> (forall|t: u64|
                #[trigger] final(self).ledger.spec_has(t) == old(self).ledger.spec_has(t)) && (
            forall|t: u64|
                old(self).ledger.spec_has(t) ==> #[trigger] final(self).ledger.spec_row(t)
                    == (LedgerRow {
                    held: (old(self).ledger.spec_row(t).held - items_hold(
                        old(self).spec_cart(cart_id).items@,
                        t,
                    )) as u32,
                    sold: (old(self).ledger.spec_row(t).sold + items_hold(
                        old(self).spec_cart(cart_id).items@,
                        t,
                    )) as u32,
                    ..old(self).ledger.spec_row(t)
                })),
    {
        let ghost pre = *self;
        let n_carts = self.carts.len();
        if !(cart_id < n_carts as u64) {
            return Err(EngineError::NotFound);
        }
        let ci = cart_id as usize;
        let cart_open = match self.carts[ci].status {
            CartStatus::Open => true,
            _ => false,
        };
        if !cart_open {
            return Err(EngineError::InvalidState);
        }
        let ghost cart0 = pre.carts@[ci as int];
        proof {
            assert(cart0.wf());
        }
        let payment = Payment { provider_reference, amount_in_cents, succeeded };
        let total = items_total_exec(&self.carts[ci].items);
        let mut payments = copy_payments(&self.carts[ci].payments);
        payments.push(payment);
        let paid = payments_total_exec(&payments);
        let covered = paid >= total;
        if covered {
            proof {
                assert forall|j: int|
                    0 <= j < cart0.items@.len() implies (#[trigger] cart0.items@[j]).quantity
                    <= pre.ledger.spec_row(cart0.items@[j].ticket_type_id).held by {
                    let t = cart0.items@[j].ticket_type_id;
                    lemma_items_hold_unique(cart0.items@, t);
                    lemma_cart_hold_le_open_holds(pre.carts@, ci as int, t);
                    assert(pre.ledger.spec_has(t));
                }
            }
            settle_items(&mut self.ledger, &self.carts[ci].items, true);
        }
        let items = copy_items(&self.carts[ci].items);
        let new_cart = Cart {
            id: self.carts[ci].id,
            user_id: self.carts[ci].user_id,
            on_behalf_of_user_id: self.carts[ci].on_behalf_of_user_id,
            status: if covered {
                CartStatus::Paid
            } else {
                CartStatus::Open
            },
            items,
            payments,
            last_updated_at: self.carts[ci].last_updated_at,
        };
        let ghost replaced = new_cart;
        self.carts.set(ci, new_cart);
        proof {
            assert forall|t: u64| #[trigger] self.ledger.spec_has(t) implies self.ledger.spec_row(
                t,
            ).held == open_holds(self.carts@, t) by {
                lemma_open_holds_update(pre.carts@, ci as int, replaced, t);
                assert(pre.ledger.spec_has(t));
                assert(pre.ledger.spec_row(t).held == open_holds(pre.carts@, t));
                lemma_cart_hold_le_open_holds(pre.carts@, ci as int, t);
                lemma_items_hold_nonneg(cart0.items@, t);
                assert(cart_hold(pre.carts@[ci as int], t) == items_hold(cart0.items@, t));
                if covered {
                    assert(cart_hold(replaced, t) == 0);
                } else {
                    assert(cart_hold(replaced, t) == items_hold(cart0.items@, t));
                }
            }
        }
        Ok(())
    }

    /// Reclaims every open cart whose last mutation is older than the
    /// time-to-live: its holds return to the ledger and it transitions
    /// to `Expired`.  Each cart is handled independently and
    /// idempotently — a second sweep at the same instant finds nothing
    /// and changes nothing, and concurrent sweeper instances serialize
    /// on the store like every other operation.  Returns how many
    /// carts were reclaimed.
    #[verifier::rlimit(100)]
    pub fn sweep_expired(&mut self, ttl_seconds: i64, now: i64) -> (swept: usize)
        requires
            old(self).wf(),
        ensures
            final(self).wf(),
            sweep_applied(*old(self), *final(self), ttl_seconds, now),
            swept == count_expired(old(self).carts@, ttl_seconds, now),
    {
        let ghost pre = *self;
        let n = self.carts.len();
        let mut swept: usize = 0;
        let mut i: usize = 0;
        while i < n
            invariant
                i <= n,
                n == pre.carts@.len(),
                self.wf(),
                self.ticket_types@ == pre.ticket_types@,
                self.carts@.len() == pre.carts@.len(),
                swept <= i,
                swept == count_expired(pre.carts@.take(i as int), ttl_seconds, now),
                forall|j: int| i <= j < n ==> self.carts@[j] == pre.carts@[j],
                forall|j: int|
                    0 <= j < i && !cart_expired((#[trigger] pre.carts@[j]), ttl_seconds, now)
                        ==> self.carts@[j] == pre.carts@[j],
                forall|j: int|
                    0 <= j < i && cart_expired((#[trigger] pre.carts@[j]), ttl_seconds, now)
                        ==> self.carts@[j].status == CartStatus::Expired && self.carts@[j].items@
                        == pre.carts@[j].items@ && self.carts@[j].payments@
                        == pre.carts@[j].payments@ && self.carts@[j].id == pre.carts@[j].id
                        && self.carts@[j].user_id == pre.carts@[j].user_id
                        && self.carts@[j].on_behalf_of_user_id
                        == pre.carts@[j].on_behalf_of_user_id && self.carts@[j].last_updated_at
                        == pre.carts@[j].last_updated_at,
                forall|t: u64| #[trigger] self.ledger.spec_has(t) == pre.ledger.spec_has(t),
                forall|t: u64|
                    pre.ledger.spec_has(t) ==> (#[trigger] self.ledger.spec_row(t)).sold
                        == pre.ledger.spec_row(t).sold && self.ledger.spec_row(t).total
                        == pre.ledger.spec_row(t).total && self.ledger.spec_row(t).ticket_type_id
                        == pre.ledger.spec_row(t).ticket_type_id,
                (forall|j: int| 0 <= j < i ==> !cart_expired((#[trigger] pre.carts@[j]), ttl_seconds, now))
                    ==> *self == pre,
            decreases n - i,
        {
            let ghost mid = *self;
            let is_open = match self.carts[i].status {
                CartStatus::Open => true,
                _ => false,
            };
            let expired = is_open && (now as i128 - self.carts[i].last_updated_at as i128
                > ttl_seconds as i128);
            proof {
                assert(expired == cart_expired(pre.carts@[i as int], ttl_seconds, now));
                assert(pre.carts@.take(i as int + 1).drop_last() =~= pre.carts@.take(i as int));
                assert(pre.carts@.take(i as int + 1).last() == pre.carts@[i as int]);
            }
            if expired {
                let ghost cart0 = pre.carts@[i as int];
                proof {
                    assert(cart0.wf());
                    assert forall|j: int|
                        0 <= j < cart0.items@.len() implies (#[trigger] cart0.items@[j]).quantity
                        <= mid.ledger.spec_row(cart0.items@[j].ticket_type_id).held by {
                        let t = cart0.items@[j].ticket_type_id;
                        lemma_items_hold_unique(cart0.items@, t);
                        lemma_cart_hold_le_open_holds(mid.carts@, i as int, t);
                        assert(mid.ledger.spec_has(t));
                    }
                }
                settle_items(&mut self.ledger, &self.carts[i].items, false);
                let items = copy_items(&self.carts[i].items);
                let payments = copy_payments(&self.carts[i].payments);
                let new_cart = Cart {
                    id: self.carts[i].id,
                    user_id: self.carts[i].user_id,
                    on_behalf_of_user_id: self.carts[i].on_behalf_of_user_id,
                    status: CartStatus::Expired,
                    items,
                    payments,
                    last_updated_at: self.carts[i].last_updated_at,
                };
                let ghost replaced = new_cart;
                self.carts.set(i, new_cart);
                proof {
                    assert forall|t: u64| #[trigger] self.ledger.spec_has(t)
                        implies self.ledger.spec_row(t).held == open_holds(self.carts@, t) by {
                        lemma_open_holds_update(mid.carts@, i as int, replaced, t);
                        assert(mid.ledger.spec_has(t));
                        assert(mid.ledger.spec_row(t).held == open_holds(mid.carts@, t));
                        lemma_cart_hold_le_open_holds(mid.carts@, i as int, t);
                        lemma_items_hold_nonneg(cart0.items@, t);
                        assert(cart_hold(replaced, t) == 0);
                        assert(cart_hold(mid.carts@[i as int], t) == items_hold(cart0.items@, t));
                    }
                }
                swept += 1;
            }
            i += 1;
        }
        proof {
            assert(pre.carts@.take(n as int) =~= pre.carts@);
            if forall|j: int|
                0 <= j < pre.carts@.len() ==> !cart_expired(
                    (#[trigger] pre.carts@[j]),
                    ttl_seconds,
                    now,
                ) {
                assert(*self == pre);
            }
            assert forall|j: int| 0 <= j < self.carts@.len() implies !cart_expired(
                (#[trigger] self.carts@[j]),
                ttl_seconds,
                now,
            ) by {
                if cart_expired(pre.carts@[j], ttl_seconds, now) {
                    assert(self.carts@[j].status == CartStatus::Expired);
                } else {
                    assert(self.carts@[j] == pre.carts@[j]);
                }
            }
        }
        swept
    }

    /// Units of the ticket type still available for reservation:
    /// `total - held - sold`.  Advisory only — a later reservation
    /// re-checks authoritatively.  Fails with `NotFound` if and only
    /// if the ticket type has no ledger row.
    pub fn remaining(&self, ticket_type_id: u64) -> (r: Result<u32, EngineError>)
        requires
            self.wf(),
        ensures
            r is Ok <==> self.ledger.spec_has(ticket_type_id),
            r is Ok ==> r == Result::<u32, EngineError>::Ok(
                self.ledger.spec_row(ticket_type_id).spec_remaining() as u32,
            ),
            r is Err ==> r == Result::<u32, EngineError>::Err(EngineError::NotFound),
    {
        self.ledger.remaining(ticket_type_id)
    }

    /// Resolves the authoritative unit price, per-unit fee and tier
    /// for the ticket type at `at_time` under `discount_code`.  Fails
    /// with `NotFound` if and only if the ticket type is not in the
    /// catalog, and otherwise exactly as the ticket type's resolver
    /// does.
    pub fn price_for(&self, ticket_type_id: u64, at_time: i64, discount_code: Option<u64>) -> (r:
        Result<PriceQuote, EngineError>)
        requires
            self.wf(),
        ensures
            r is Ok <==> self.spec_has_ticket_type(ticket_type_id) && self.spec_ticket_type(
                ticket_type_id,
            ).spec_has_quote(at_time, discount_code),
            r is Ok ==> r == Result::<PriceQuote, EngineError>::Ok(
                self.spec_ticket_type(ticket_type_id).spec_quote(at_time, discount_code),
            ),
            r is Err ==> r == Result::<PriceQuote, EngineError>::Err(
                if !self.spec_has_ticket_type(ticket_type_id) {
                    EngineError::NotFound
                } else {
                    self.spec_ticket_type(ticket_type_id).spec_quote_error(at_time, discount_code)
                },
            ),
    {
        match self.find_ticket_type(ticket_type_id) {
            Some(i) => {
                proof {
                    self.lemma_ticket_type_index(ticket_type_id, i as int);
                }
                self.ticket_types[i].price_for(at_time, discount_code)
            },
            None => Err(EngineError::NotFound),
        }
    }
}

/// A cart in the making: `Cart::create(user).commit(&mut store, now)`
/// opens (or reuses) the buyer's one open cart.
pub struct NewCart {
    pub user_id: u64,
}

impl NewCart {
    /// Opens the buyer's cart in the store — reusing the existing
    /// open cart if there is one — and returns a snapshot of it.
    pub fn commit(&self, store: &mut BoxOffice, now: i64) -> (r: Result<Cart, EngineError>)
        requires
            old(store).wf(),
        ensures
            final(store).wf(),
            r is Ok,
            match r {
                Ok(c) => final(store).spec_has_cart(c.id) && c.user_id == self.user_id && c.status
                    == CartStatus::Open && final(store).spec_cart(c.id).id == c.id && final(store).spec_cart(c.id).user_id == c.user_id && final(store).spec_cart(c.id).status
                    == CartStatus::Open && final(store).spec_cart(c.id).items@ == c.items@ && final(store).spec_cart(c.id).payments@ == c.payments@,
                Err(_) => false,
            },
            old(store).spec_has_open_cart(self.user_id) ==> *final(store) == *old(store),
    {
        let cart_id = store.find_or_create_cart(self.user_id, now);
        match Cart::find_by_id(cart_id, store) {
            Ok(c) => Ok(c),
            Err(e) => {
                proof {
                    assert(false);
                }
                Err(e)
            },
        }
    }
}

impl Cart {
    /// A builder for the buyer's cart; `commit` opens it in a store.
    pub fn create(user_id: u64) -> (b: NewCart)
        ensures
            b.user_id == user_id,
    {
        NewCart { user_id }
    }

    /// A snapshot of the cart with this identifier.  Fails with
    /// `NotFound` if and only if no such cart exists.
    pub fn find_by_id(cart_id: u64, store: &BoxOffice) -> (r: Result<Cart, EngineError>)
        requires
            store.wf(),
        ensures
            r is Ok <==> store.spec_has_cart(cart_id),
            match r {
                Ok(c) => c.id == cart_id && c.user_id == store.spec_cart(cart_id).user_id
                    && c.on_behalf_of_user_id == store.spec_cart(cart_id).on_behalf_of_user_id
                    && c.status == store.spec_cart(cart_id).status && c.items@ == store.spec_cart(
                    cart_id,
                ).items@ && c.payments@ == store.spec_cart(cart_id).payments@ && c.last_updated_at
                    == store.spec_cart(cart_id).last_updated_at,
                Err(e) => e == EngineError::NotFound,
            },
    {
        let n_carts = store.carts.len();
        if !(cart_id < n_carts as u64) {
            return Err(EngineError::NotFound);
        }
        let ci = cart_id as usize;
        proof {
            assert(store.carts@[ci as int].id == ci as u64);
        }
        let items = copy_items(&store.carts[ci].items);
        let payments = copy_payments(&store.carts[ci].payments);
        Ok(
            Cart {
                id: cart_id,
                user_id: store.carts[ci].user_id,
                on_behalf_of_user_id: store.carts[ci].on_behalf_of_user_id,
                status: store.carts[ci].status,
                items,
                payments,
                last_updated_at: store.carts[ci].last_updated_at,
            },
        )
    }

    /// A snapshot of the one open cart of `user_id`.  Fails with
    /// `NotFound` (the store's "no results" code) if and only if the
    /// buyer has no open cart.
    pub fn find_for_user(user_id: u64, store: &BoxOffice) -> (r: Result<Cart, EngineError>)
        requires
            store.wf(),
        ensures
            r is Ok <==> store.spec_has_open_cart(user_id),
            match r {
                Ok(c) => c.id as int == store.spec_open_cart_index(user_id) && c.user_id == user_id
                    && c.status == CartStatus::Open && c.items@ == store.carts@[store
                    .spec_open_cart_index(user_id)].items@,
                Err(e) => e == EngineError::NotFound,
            },
    {
        let cart_id = match store.find_cart_for_user(user_id) {
            Ok(i) => i,
            Err(e) => {
                return Err(e);
            },
        };
        match Cart::find_by_id(cart_id, store) {
            Ok(c) => {
                proof {
                    let oi = store.spec_open_cart_index(user_id);
                    assert(store.carts@[oi].id == oi as u64);
                }
                Ok(c)
            },
            Err(e) => {
                proof {
                    assert(false);
                }
                Err(e)
            },
        }
    }

    /// The cart's current lines, re-read from the store.  Fails with
    /// `NotFound` if and only if the cart does not exist there.
    pub fn items(&self, store: &BoxOffice) -> (r: Result<Vec<OrderItem>, EngineError>)
        requires
            store.wf(),
        ensures
            r is Ok <==> store.spec_has_cart(self.id),
            match r {
                Ok(v) => v@ == store.spec_cart(self.id).items@,
                Err(e) => e == EngineError::NotFound,
            },
    {
        let n_carts = store.carts.len();
        if !(self.id < n_carts as u64) {
            return Err(EngineError::NotFound);
        }
        let ci = self.id as usize;
        Ok(copy_items(&store.carts[ci].items))
    }

    /// Adds `quantity` units of the ticket type on top of whatever
    /// the cart already holds of it: one single-line
    /// `update_quantities` call for the summed quantity, with no
    /// redemption code.  Fails exactly as that call does, and with
    /// `CapacityExceeded` when the summed quantity cannot fit any
    /// ticket type's capacity counter; on failure the store is
    /// unchanged.
    pub fn add_item(&self, ticket_type_id: u64, quantity: u32, store: &mut BoxOffice, now: i64)
        -> (r: Result<(), EngineError>)
        requires
            old(store).wf(),
        ensures
            final(store).wf(),
            r is Err ==> *final(store) == *old(store),
            r is Ok <==> old(store).spec_has_cart(self.id) && old(store).spec_cart(self.id).status
                == CartStatus::Open && items_hold(
                old(store).spec_cart(self.id).items@,
                ticket_type_id,
            ) + quantity <= u32::MAX && spec_first_line_error(
                *old(store),
                old(store).spec_cart(self.id),
                seq![
                    UpdateOrderItem {
                        ticket_type_id,
                        quantity: (items_hold(
                            old(store).spec_cart(self.id).items@,
                            ticket_type_id,
                        ) + quantity) as u32,
                        redemption_code: None,
                    },
                ],
                now,
            ) is None,
            r is Ok ==> old(store).ledger.spec_has(ticket_type_id) && final(store).ledger.spec_row(ticket_type_id) == (LedgerRow {
                held: (old(store).ledger.spec_row(ticket_type_id).held + quantity) as u32,
                ..old(store).ledger.spec_row(ticket_type_id)
            }) && items_hold(final(store).spec_cart(self.id).items@, ticket_type_id) == items_hold(
                old(store).spec_cart(self.id).items@,
                ticket_type_id,
            ) + quantity,
    {
        let ghost pre = *store;
        let n_carts = store.carts.len();
        if !(self.id < n_carts as u64) {
            return Err(EngineError::NotFound);
        }
        let ci = self.id as usize;
        let cart_open = match store.carts[ci].status {
            CartStatus::Open => true,
            _ => false,
        };
        if !cart_open {
            return Err(EngineError::InvalidState);
        }
        proof {
            assert(pre.carts@[ci as int].wf());
        }
        let cur: u32 = match find_item(&store.carts[ci].items, ticket_type_id) {
            Some(j) => store.carts[ci].items[j].quantity,
            None => 0,
        };
        proof {
            lemma_items_hold_unique(pre.carts@[ci as int].items@, ticket_type_id);
            assert(items_hold(pre.carts@[ci as int].items@, ticket_type_id) == cur);
        }
        let new_quantity_wide: u64 = cur as u64 + quantity as u64;
        if new_quantity_wide > u32::MAX as u64 {
            return Err(EngineError::CapacityExceeded);
        }
        let line = UpdateOrderItem {
            ticket_type_id,
            quantity: new_quantity_wide as u32,
            redemption_code: None,
        };
        let mut updates: Vec<UpdateOrderItem> = Vec::new();
        updates.push(line);
        proof {
            assert(updates@ =~= seq![line]);
        }
        let r = store.update_quantities(self.id, &updates, now);
        proof {
            if r is Ok {
                assert(updates@[0] == line);
                let items1 = store.spec_cart(self.id).items@;
                assert(store.spec_cart(self.id).wf());
                lemma_items_hold_unique(items1, ticket_type_id);
                if line.quantity > 0 {
                    assert(crate::cart::items_contain(items1, ticket_type_id) && items1[
                        item_index_of(items1, ticket_type_id)] == spec_updated_item(
                        pre,
                        line,
                        now,
                    ));
                } else {
                    assert(!crate::cart::items_contain(items1, ticket_type_id));
                }
                assert(items_hold(items1, ticket_type_id) == line.quantity);
                assert(spec_line_error(pre, pre.spec_cart(self.id), line, now) is None);
                assert(pre.ledger.spec_has(ticket_type_id));
            }
        }
        r
    }
}

} // verus!
