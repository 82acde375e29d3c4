//! Carts, order items and payments: the data the cart/order engine
//! owns, with the ghost accounting that ties open carts to the
//! inventory ledger's held counters.
//!
//! A cart is an order in its draft state.  While it is `Open`, every
//! line item's quantity is counted in the ledger's `held` column for
//! its ticket type; `Paid` converts the holds to sold units,
//! `Cancelled` and `Expired` release them.  The spec functions here
//! define those held quantities as sums over the cart collection, so
//! the engine can state — and keep — the invariant that the ledger's
//! `held` is exactly what the open carts hold.

use vstd::prelude::*;

verus! {

/// Lifecycle state of a cart.  `Open` is the only mutable state; no
/// transition leaves `Paid`, `Cancelled` or `Expired`.
#[derive(Clone, Copy, Debug, PartialEq, Eq, Structural)]
pub enum CartStatus {
    Open,
    Paid,
    Cancelled,
    Expired,
}

/// One line of a cart: the ticket type, the quantity held, and the
/// price, fee and tier snapshotted from the pricing resolver at the
/// last mutation that touched the line.  The tier identifier lets a
/// later repricing dispute be audited against what was charged.
#[derive(Clone, Copy, Debug, PartialEq, Eq, Structural)]
pub struct OrderItem {
    pub ticket_type_id: u64,
    pub quantity: u32,
    pub unit_price_in_cents: u32,
    pub fee_in_cents: u32,
    pub pricing_tier_id: u64,
    pub redemption_code: Option<u64>,
}

/// One requested line of an `update_quantities` call: set the cart's
/// quantity for this ticket type (zero removes the line), optionally
/// under a redemption code.
#[derive(Clone, Copy, Debug, PartialEq, Eq, Structural)]
pub struct UpdateOrderItem {
    pub ticket_type_id: u64,
    pub quantity: u32,
    pub redemption_code: Option<u64>,
}

/// One recorded result of the external payment gateway: the provider's
/// reference, the amount, and whether the gateway reported success.
/// Only successful payments count toward the order's total.
#[derive(Clone, Copy, Debug, PartialEq, Eq, Structural)]
pub struct Payment {
    pub provider_reference: u64,
    pub amount_in_cents: u64,
    pub succeeded: bool,
}

/// A buyer's cart: the order in draft state, then its terminal record.
/// `id` is assigned by the store; `on_behalf_of_user_id` optionally
/// names a distinct ticket recipient without changing ownership or
/// payment responsibility.  `last_updated_at` is the last-mutated
/// timestamp the expiry sweeper compares against its time-to-live.
#[derive(Debug)]
pub struct Cart {
    pub id: u64,
    pub user_id: u64,
    pub on_behalf_of_user_id: Option<u64>,
    pub status: CartStatus,
    pub items: Vec<OrderItem>,
    pub payments: Vec<Payment>,
    pub last_updated_at: i64,
}

/// No two items of one cart name the same ticket type.
pub open spec fn items_unique(items: Seq<OrderItem>) -> bool {
    forall|i: int, j: int|
        0 <= i < j < items.len() ==> items[i].ticket_type_id != items[j].ticket_type_id
}

/// Whether some item names `ticket_type_id`.
pub open spec fn items_contain(items: Seq<OrderItem>, ticket_type_id: u64) -> bool {
    exists|i: int| 0 <= i < items.len() && items[i].ticket_type_id == ticket_type_id
}

/// The index of the item for `ticket_type_id`; meaningful only when
/// `items_contain` holds and items are unique.
pub open spec fn item_index_of(items: Seq<OrderItem>, ticket_type_id: u64) -> int {
    choose|i: int| 0 <= i < items.len() && items[i].ticket_type_id == ticket_type_id
}

/// What one item contributes to the held count of `ticket_type_id`.
pub open spec fn item_hold(item: OrderItem, ticket_type_id: u64) -> int {
    if item.ticket_type_id == ticket_type_id {
        item.quantity as int
    } else {
        0
    }
}

/// Units of `ticket_type_id` held by a sequence of items.
pub open spec fn items_hold(items: Seq<OrderItem>, ticket_type_id: u64) -> int
    decreases items.len(),
{
    if items.len() == 0 {
        0
    } else {
        items_hold(items.drop_last(), ticket_type_id) + item_hold(items.last(), ticket_type_id)
    }
}

/// What one cart contributes to the ledger's held count: its items'
/// quantities while it is open, nothing once it is not.
pub open spec fn cart_hold(cart: Cart, ticket_type_id: u64) -> int {
    if cart.status == CartStatus::Open {
        items_hold(cart.items@, ticket_type_id)
    } else {
        0
    }
}

/// Units of `ticket_type_id` held by all open carts of a collection.
/// The engine's central invariant equates this with the ledger row's
/// `held` column.
pub open spec fn open_holds(carts: Seq<Cart>, ticket_type_id: u64) -> int
    decreases carts.len(),
{
    if carts.len() == 0 {
        0
    } else {
        open_holds(carts.drop_last(), ticket_type_id) + cart_hold(carts.last(), ticket_type_id)
    }
}

/// The money total of a sequence of items:
/// `sum((unit_price + fee) * quantity)`, in cents.
pub open spec fn items_total(items: Seq<OrderItem>) -> int
    decreases items.len(),
{
    if items.len() == 0 {
        0
    } else {
        items_total(items.drop_last()) + (items.last().unit_price_in_cents
            + items.last().fee_in_cents) * items.last().quantity
    }
}

/// The sum of the amounts of the successful payments, in cents.
pub open spec fn payments_total(payments: Seq<Payment>) -> int
    decreases payments.len(),
{
    if payments.len() == 0 {
        0
    } else {
        payments_total(payments.drop_last()) + (if payments.last().succeeded {
            payments.last().amount_in_cents as int
        } else {
            0
        })
    }
}

impl Cart {
    /// Well-formedness of one cart: items name distinct ticket types,
    /// a kept line always holds at least one unit (a zero quantity
    /// removes the line), and every snapshot respects the price
    /// bounds, which keeps per-item totals inside `u64`.
    pub open spec fn wf(self) -> bool {
        &&& items_unique(self.items@)
        &&& forall|i: int|
            0 <= i < self.items@.len() ==> (#[trigger] self.items@[i]).quantity >= 1
        &&& forall|i: int|
            0 <= i < self.items@.len() ==> (#[trigger] self.items@[i]).unit_price_in_cents
                + self.items@[i].fee_in_cents <= u32::MAX
    }
}

/// Item holds are never negative.
pub proof fn lemma_items_hold_nonneg(items: Seq<OrderItem>, ticket_type_id: u64)
    ensures
        items_hold(items, ticket_type_id) >= 0,
    decreases items.len(),
{
    if items.len() > 0 {
        lemma_items_hold_nonneg(items.drop_last(), ticket_type_id);
    }
}

/// Replacing the item at `j` shifts the held sum by the difference of
/// the two items' contributions.
pub proof fn lemma_items_hold_update(
    items: Seq<OrderItem>,
    j: int,
    item: OrderItem,
    ticket_type_id: u64,
)
    requires
        0 <= j < items.len(),
    ensures
        items_hold(items.update(j, item), ticket_type_id) == items_hold(items, ticket_type_id)
            - item_hold(items[j], ticket_type_id) + item_hold(item, ticket_type_id),
    decreases items.len(),
{
    let n = items.len() as int;
    if j == n - 1 {
        assert(items.update(j, item).drop_last() =~= items.drop_last());
    } else {
        assert(items.update(j, item).drop_last() =~= items.drop_last().update(j, item));
        lemma_items_hold_update(items.drop_last(), j, item, ticket_type_id);
    }
}

/// Appending an item adds its contribution to the held sum.
pub proof fn lemma_items_hold_push(items: Seq<OrderItem>, item: OrderItem, ticket_type_id: u64)
    ensures
        items_hold(items.push(item), ticket_type_id) == items_hold(items, ticket_type_id)
            + item_hold(item, ticket_type_id),
{
    assert(items.push(item).drop_last() =~= items);
}

/// Removing the item at `j` subtracts its contribution from the held
/// sum.
pub proof fn lemma_items_hold_remove(items: Seq<OrderItem>, j: int, ticket_type_id: u64)
    requires
        0 <= j < items.len(),
    ensures
        items_hold(items.remove(j), ticket_type_id) == items_hold(items, ticket_type_id)
            - item_hold(items[j], ticket_type_id),
    decreases items.len(),
{
    let n = items.len() as int;
    if j == n - 1 {
        assert(items.remove(j) =~= items.drop_last());
    } else {
        assert(items.remove(j).drop_last() =~= items.drop_last().remove(j));
        assert(items.remove(j).last() == items.last());
        lemma_items_hold_remove(items.drop_last(), j, ticket_type_id);
    }
}

/// With unique items, the held sum for a ticket type is the quantity
/// of its one item, or zero when no item names it.
pub proof fn lemma_items_hold_unique(items: Seq<OrderItem>, ticket_type_id: u64)
    requires
        items_unique(items),
    ensures
        !items_contain(items, ticket_type_id) ==> items_hold(items, ticket_type_id) == 0,
        forall|j: int|
            0 <= j < items.len() && items[j].ticket_type_id == ticket_type_id ==> items_hold(
                items,
                ticket_type_id,
            ) == items[j].quantity,
    decreases items.len(),
{
    if items.len() > 0 {
        let rest = items.drop_last();
        assert(items_unique(rest));
        lemma_items_hold_unique(rest, ticket_type_id);
        assert forall|j: int|
            0 <= j < items.len() && items[j].ticket_type_id == ticket_type_id implies items_hold(
            items,
            ticket_type_id,
        ) == items[j].quantity by {
            if j == items.len() - 1 {
                assert(!items_contain(rest, ticket_type_id)) by {
                    if items_contain(rest, ticket_type_id) {
                        let k = choose|k: int|
                            0 <= k < rest.len() && rest[k].ticket_type_id == ticket_type_id;
                        assert(items[k].ticket_type_id == items[j].ticket_type_id);
                    }
                }
            } else {
                assert(rest[j] == items[j]);
                assert(items.last().ticket_type_id != ticket_type_id);
            }
        }
    }
}

/// With unique items, any index that matches `ticket_type_id` is the
/// index that `item_index_of` picks.
pub proof fn lemma_item_index(items: Seq<OrderItem>, ticket_type_id: u64, i: int)
    requires
        items_unique(items),
        0 <= i < items.len(),
        items[i].ticket_type_id == ticket_type_id,
    ensures
        items_contain(items, ticket_type_id),
        item_index_of(items, ticket_type_id) == i,
{
    assert(items_contain(items, ticket_type_id));
    let j = item_index_of(items, ticket_type_id);
    if i < j {
        assert(items[i].ticket_type_id != items[j].ticket_type_id);
    } else if j < i {
        assert(items[j].ticket_type_id != items[i].ticket_type_id);
    }
}

/// The index of the line for `ticket_type_id`, if the cart has one.
pub fn find_item(items: &Vec<OrderItem>, ticket_type_id: u64) -> (r: Option<usize>)
    ensures
        match r {
            Some(j) => j < items@.len() && items@[j as int].ticket_type_id == ticket_type_id,
            None => !items_contain(items@, ticket_type_id),
        },
{
    let n = items.len();
    let mut i: usize = 0;
    while i < n
        invariant
            i <= n,
            n == items@.len(),
            forall|k: int| 0 <= k < i ==> items@[k].ticket_type_id != ticket_type_id,
        decreases n - i,
    {
        if items[i].ticket_type_id == ticket_type_id {
            return Some(i);
        }
        i += 1;
    }
    None
}

/// A fresh vector with the same items.
pub fn copy_items(items: &Vec<OrderItem>) -> (r: Vec<OrderItem>)
    ensures
        r@ == items@,
{
    let n = items.len();
    let mut r: Vec<OrderItem> = Vec::new();
    let mut i: usize = 0;
    while i < n
        invariant
            i <= n,
            n == items@.len(),
            r@ == items@.take(i as int),
        decreases n - i,
    {
        r.push(items[i]);
        proof {
            assert(r@ =~= items@.take(i as int + 1));
        }
        i += 1;
    }
    proof {
        assert(items@.take(n as int) =~= items@);
    }
    r
}

/// A fresh vector with the same payments.
pub fn copy_payments(payments: &Vec<Payment>) -> (r: Vec<Payment>)
    ensures
        r@ == payments@,
{
    let n = payments.len();
    let mut r: Vec<Payment> = Vec::new();
    let mut i: usize = 0;
    while i < n
        invariant
            i <= n,
            n == payments@.len(),
            r@ == payments@.take(i as int),
        decreases n - i,
    {
        r.push(payments[i]);
        proof {
            assert(r@ =~= payments@.take(i as int + 1));
        }
        i += 1;
    }
    proof {
        assert(payments@.take(n as int) =~= payments@);
    }
    r
}

/// Items that never name a ticket type hold nothing of it.
pub proof fn lemma_items_hold_absent(items: Seq<OrderItem>, ticket_type_id: u64)
    requires
        forall|k: int| 0 <= k < items.len() ==> (#[trigger] items[k]).ticket_type_id != ticket_type_id,
    ensures
        items_hold(items, ticket_type_id) == 0,
    decreases items.len(),
{
    if items.len() > 0 {
        lemma_items_hold_absent(items.drop_last(), ticket_type_id);
    }
}

/// Carts none of whose items name a ticket type hold nothing of it.
pub proof fn lemma_open_holds_absent(carts: Seq<Cart>, ticket_type_id: u64)
    requires
        forall|i: int, k: int|
            0 <= i < carts.len() && 0 <= k < carts[i].items@.len()
                ==> (#[trigger] carts[i].items@[k]).ticket_type_id != ticket_type_id,
    ensures
        open_holds(carts, ticket_type_id) == 0,
    decreases carts.len(),
{
    if carts.len() > 0 {
        lemma_open_holds_absent(carts.drop_last(), ticket_type_id);
        assert(carts.last() == carts[carts.len() - 1]);
        lemma_items_hold_absent(carts.last().items@, ticket_type_id);
    }
}

/// Cart holds are never negative.
pub proof fn lemma_cart_hold_nonneg(cart: Cart, ticket_type_id: u64)
    ensures
        cart_hold(cart, ticket_type_id) >= 0,
{
    lemma_items_hold_nonneg(cart.items@, ticket_type_id);
}

/// Replacing the cart at `j` shifts the open-holds sum by the
/// difference of the two carts' contributions.
pub proof fn lemma_open_holds_update(carts: Seq<Cart>, j: int, cart: Cart, ticket_type_id: u64)
    requires
        0 <= j < carts.len(),
    ensures
        open_holds(carts.update(j, cart), ticket_type_id) == open_holds(carts, ticket_type_id)
            - cart_hold(carts[j], ticket_type_id) + cart_hold(cart, ticket_type_id),
    decreases carts.len(),
{
    let n = carts.len() as int;
    if j == n - 1 {
        assert(carts.update(j, cart).drop_last() =~= carts.drop_last());
    } else {
        assert(carts.update(j, cart).drop_last() =~= carts.drop_last().update(j, cart));
        lemma_open_holds_update(carts.drop_last(), j, cart, ticket_type_id);
    }
}

/// Appending a cart adds its contribution to the open-holds sum.
pub proof fn lemma_open_holds_push(carts: Seq<Cart>, cart: Cart, ticket_type_id: u64)
    ensures
        open_holds(carts.push(cart), ticket_type_id) == open_holds(carts, ticket_type_id)
            + cart_hold(cart, ticket_type_id),
{
    assert(carts.push(cart).drop_last() =~= carts);
}

/// Every single cart's contribution is bounded by the open-holds sum.
pub proof fn lemma_cart_hold_le_open_holds(carts: Seq<Cart>, j: int, ticket_type_id: u64)
    requires
        0 <= j < carts.len(),
    ensures
        cart_hold(carts[j], ticket_type_id) <= open_holds(carts, ticket_type_id),
    decreases carts.len(),
{
    let n = carts.len() as int;
    lemma_cart_hold_nonneg(carts.last(), ticket_type_id);
    if j == n - 1 {
        lemma_open_holds_nonneg(carts.drop_last(), ticket_type_id);
    } else {
        assert(carts.drop_last()[j] == carts[j]);
        lemma_cart_hold_le_open_holds(carts.drop_last(), j, ticket_type_id);
    }
}

/// Open holds are never negative.
pub proof fn lemma_open_holds_nonneg(carts: Seq<Cart>, ticket_type_id: u64)
    ensures
        open_holds(carts, ticket_type_id) >= 0,
    decreases carts.len(),
{
    if carts.len() > 0 {
        lemma_open_holds_nonneg(carts.drop_last(), ticket_type_id);
        lemma_cart_hold_nonneg(carts.last(), ticket_type_id);
    }
}

/// Sums `(unit_price + fee) * quantity` over the items, in cents.
/// The per-item bound of `Cart::wf` keeps each summand inside `u64`,
/// so the whole sum fits `u128` for any number of items.
pub fn items_total_exec(items: &Vec<OrderItem>) -> (total: u128)
    requires
        forall|j: int|
            0 <= j < items@.len() ==> (#[trigger] items@[j]).unit_price_in_cents
                + items@[j].fee_in_cents <= u32::MAX,
    ensures
        total == items_total(items@),
{
    let n = items.len();
    let mut total: u128 = 0;
    let mut i: usize = 0;
    while i < n
        invariant
            i <= n,
            n == items@.len(),
            forall|j: int|
                0 <= j < items@.len() ==> (#[trigger] items@[j]).unit_price_in_cents
                    + items@[j].fee_in_cents <= u32::MAX,
            total == items_total(items@.take(i as int)),
            total <= i * 0xFFFF_FFFE_0000_0001u128,
        decreases n - i,
    {
        let item = items[i];
        proof {
            assert((item.unit_price_in_cents + item.fee_in_cents) * item.quantity
                <= 0xFFFF_FFFE_0000_0001u128) by (nonlinear_arith)
                requires
                    item.unit_price_in_cents + item.fee_in_cents <= u32::MAX,
                    item.quantity <= u32::MAX,
            ;
        }
        let line_total: u64 = (item.unit_price_in_cents as u64 + item.fee_in_cents as u64)
            * item.quantity as u64;
        proof {
            assert(total + line_total <= (i + 1) * 0xFFFF_FFFE_0000_0001u128) by (nonlinear_arith)
                requires
                    total <= i * 0xFFFF_FFFE_0000_0001u128,
                    line_total <= 0xFFFF_FFFE_0000_0001u128,
            ;
            assert((i + 1) * 0xFFFF_FFFE_0000_0001u128 <= 0xFFFF_FFFF_FFFF_FFFFu128
                * 0xFFFF_FFFE_0000_0001u128) by (nonlinear_arith)
                requires
                    i + 1 <= 0xFFFF_FFFF_FFFF_FFFFu128,
            ;
            assert(items@.take(i as int + 1).drop_last() =~= items@.take(i as int));
            assert(items@.take(i as int + 1).last() == items@[i as int]);
        }
        total = total + line_total as u128;
        i += 1;
    }
    proof {
        assert(items@.take(n as int) =~= items@);
    }
    total
}

/// Sums the amounts of the successful payments, in cents.
pub fn payments_total_exec(payments: &Vec<Payment>) -> (total: u128)
    ensures
        total == payments_total(payments@),
{
    let n = payments.len();
    let mut total: u128 = 0;
    let mut i: usize = 0;
    while i < n
        invariant
            i <= n,
            n == payments@.len(),
            total == payments_total(payments@.take(i as int)),
            total <= i * 0xFFFF_FFFF_FFFF_FFFFu128,
        decreases n - i,
    {
        let p = payments[i];
        proof {
            assert((i + 1) * 0xFFFF_FFFF_FFFF_FFFFu128 <= 0xFFFF_FFFF_FFFF_FFFFu128
                * 0xFFFF_FFFF_FFFF_FFFFu128) by (nonlinear_arith)
                requires
                    i + 1 <= 0xFFFF_FFFF_FFFF_FFFFu128,
            ;
            assert(total + 0xFFFF_FFFF_FFFF_FFFFu128 <= (i + 1) * 0xFFFF_FFFF_FFFF_FFFFu128)
                by (nonlinear_arith)
                requires
                    total <= i * 0xFFFF_FFFF_FFFF_FFFFu128,
            ;
            assert(payments@.take(i as int + 1).drop_last() =~= payments@.take(i as int));
            assert(payments@.take(i as int + 1).last() == payments@[i as int]);
        }
        if p.succeeded {
            total = total + p.amount_in_cents as u128;
        }
        i += 1;
    }
    proof {
        assert(payments@.take(n as int) =~= payments@);
    }
    total
}

/// Payment sums are never negative.
pub proof fn lemma_payments_total_nonneg(payments: Seq<Payment>)
    ensures
        payments_total(payments) >= 0,
    decreases payments.len(),
{
    if payments.len() > 0 {
        lemma_payments_total_nonneg(payments.drop_last());
    }
}

/// Appending a payment adds its successful amount to the payment sum.
pub proof fn lemma_payments_total_push(payments: Seq<Payment>, payment: Payment)
    ensures
        payments_total(payments.push(payment)) == payments_total(payments) + (
        if payment.succeeded {
            payment.amount_in_cents as int
        } else {
            0
        }),
{
    assert(payments.push(payment).drop_last() =~= payments);
}

} // verus!
