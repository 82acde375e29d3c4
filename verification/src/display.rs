//! Administrative display projections of a ticket type: the catalog
//! entry joined with its live ledger counters and the pricing tiers
//! still worth showing.

use vstd::prelude::*;
use vstd::string::StringExecFns;
use crate::errors::EngineError;
use crate::ledger::InventoryLedger;
use crate::pricing::{FeeSchedule, PricingTier, TicketType, TicketTypeStatus};

verus! {

/// One pricing tier as the administrative display shows it, with the
/// fee schedule already applied to its price.
#[derive(Clone, Copy, Debug, PartialEq, Eq, Structural)]
pub struct DisplayTicketPricing {
    pub pricing_tier_id: u64,
    pub start_time: i64,
    pub end_time: i64,
    pub price_in_cents: u32,
    pub fee_in_cents: u32,
}

/// The display row for one tier.
pub open spec fn spec_display_of(tier: PricingTier, fee_schedule: FeeSchedule) -> DisplayTicketPricing {
    DisplayTicketPricing {
        pricing_tier_id: tier.id,
        start_time: tier.start_time,
        end_time: tier.end_time,
        price_in_cents: tier.price_in_cents,
        fee_in_cents: fee_schedule.spec_fee_per_unit(tier.price_in_cents) as u32,
    }
}

/// The display rows for every tier whose window has not yet closed at
/// `now`, in the configured order.
pub open spec fn spec_display_pricing(
    tiers: Seq<PricingTier>,
    fee_schedule: FeeSchedule,
    now: i64,
) -> Seq<DisplayTicketPricing>
    decreases tiers.len(),
{
    if tiers.len() == 0 {
        Seq::empty()
    } else if tiers.last().end_time > now {
        spec_display_pricing(tiers.drop_last(), fee_schedule, now).push(
            spec_display_of(tiers.last(), fee_schedule),
        )
    } else {
        spec_display_pricing(tiers.drop_last(), fee_schedule, now)
    }
}

/// A ticket type as the administrative interface displays it: the
/// catalog fields, the fixed capacity and remaining quantity from the
/// ledger row, the sale-window status, and the still-open pricing.
#[derive(Debug)]
pub struct AdminDisplayTicketType {
    pub id: u64,
    pub name: String,
    pub capacity: u32,
    pub status: TicketTypeStatus,
    pub start_date: i64,
    pub end_date: i64,
    pub quantity: u32,
    pub ticket_pricing: Vec<DisplayTicketPricing>,
}

impl AdminDisplayTicketType {
    /// Projects one catalog entry and its ledger row into the
    /// administrative display: `capacity` is the row's fixed total,
    /// `quantity` the units still available, and the pricing list
    /// keeps exactly the tiers whose windows have not closed.  Fails
    /// with `NotFound` if and only if the ticket type has no ledger
    /// row.
    pub fn from_ticket_type(ticket_type: &TicketType, ledger: &InventoryLedger, now: i64) -> (r:
        Result<AdminDisplayTicketType, EngineError>)
        requires
            ticket_type.wf(),
            ledger.wf(),
        ensures
            r is Ok <==> ledger.spec_has(ticket_type.id),
            match r {
                Ok(d) => d.id == ticket_type.id && d.name@ == ticket_type.name@ && d.capacity
                    == ledger.spec_row(ticket_type.id).total && d.quantity == ledger.spec_row(
                    ticket_type.id,
                ).spec_remaining() && d.start_date == ticket_type.start_date && d.end_date
                    == ticket_type.end_date && d.status == (if now < ticket_type.start_date {
                    TicketTypeStatus::OnSaleSoon
                } else if now < ticket_type.end_date {
                    TicketTypeStatus::OnSale
                } else {
                    TicketTypeStatus::SalesEnded
                }) && d.ticket_pricing@ == spec_display_pricing(
                    ticket_type.pricing_tiers@,
                    ticket_type.fee_schedule,
                    now,
                ),
                Err(e) => e == EngineError::NotFound,
            },
    {
        let row = match ledger.row(ticket_type.id) {
            Ok(row) => row,
            Err(e) => {
                return Err(e);
            },
        };
        let remaining = match ledger.remaining(ticket_type.id) {
            Ok(q) => q,
            Err(e) => {
                proof {
                    assert(false);
                }
                return Err(e);
            },
        };
        proof {
            assert(ledger.rows@[crate::ledger::row_index(ledger.rows@, ticket_type.id)].wf());
            assert(ledger.spec_row(ticket_type.id).wf());
        }
        let n = ticket_type.pricing_tiers.len();
        let mut ticket_pricing: Vec<DisplayTicketPricing> = Vec::new();
        let mut i: usize = 0;
        while i < n
            invariant
                i <= n,
                n == ticket_type.pricing_tiers@.len(),
                ticket_type.wf(),
                ticket_pricing@ == spec_display_pricing(
                    ticket_type.pricing_tiers@.take(i as int),
                    ticket_type.fee_schedule,
                    now,
                ),
            decreases n - i,
        {
            let tier = ticket_type.pricing_tiers[i];
            proof {
                assert(ticket_type.pricing_tiers@.take(i as int + 1).drop_last()
                    =~= ticket_type.pricing_tiers@.take(i as int));
                assert(ticket_type.pricing_tiers@.take(i as int + 1).last()
                    == ticket_type.pricing_tiers@[i as int]);
                assert(ticket_type.pricing_tiers@[i as int].wf());
            }
            if tier.end_time > now {
                let fee = ticket_type.fee_schedule.fee_per_unit(tier.price_in_cents);
                ticket_pricing.push(
                    DisplayTicketPricing {
                        pricing_tier_id: tier.id,
                        start_time: tier.start_time,
                        end_time: tier.end_time,
                        price_in_cents: tier.price_in_cents,
                        fee_in_cents: fee,
                    },
                );
            }
            i += 1;
        }
        proof {
            assert(ticket_type.pricing_tiers@.take(n as int) =~= ticket_type.pricing_tiers@);
        }
        Ok(
            AdminDisplayTicketType {
                id: ticket_type.id,
                name: String::from_str(ticket_type.name.as_str()),
                capacity: row.total,
                status: ticket_type.status(now),
                start_date: ticket_type.start_date,
                end_date: ticket_type.end_date,
                quantity: remaining,
                ticket_pricing,
            },
        )
    }
}

} // verus!
