//! The pricing resolver: time-boxed pricing tiers and fee schedules.
//!
//! Given a ticket type, a point in time and an optional discount code,
//! the resolver picks the first pricing tier whose window covers that
//! time and is restricted to exactly that code (no code picks the
//! unrestricted tier), and applies the ticket type's fee schedule to
//! the tier's unit price.  Prices are resolved afresh on every cart
//! mutation and never cached past a single call; the chosen tier's
//! identifier is snapshotted onto the order item for later audit.

use vstd::prelude::*;
use vstd::arithmetic::div_mod::lemma_div_is_ordered;
use crate::errors::EngineError;

verus! {

/// The largest unit price a tier may carry, in cents.  Keeping unit
/// prices under this bound keeps every per-item total inside `u64`.
pub const MAX_UNIT_PRICE_CENTS: u32 = 1_000_000_000;

/// The largest percentage fee, in basis points (100% of the base).
pub const MAX_FEE_BPS: u32 = 10_000;

/// The largest per-unit fee a well-formed schedule can produce: the
/// flat part plus 100% of price-plus-flat.
pub const MAX_FEE_CENTS: u32 = 3_000_000_000;

/// One time-boxed price definition for a ticket type.  The window is
/// `[start_time, end_time)` in seconds of the injected clock.  A tier
/// with a `discount_code` is available only to requests carrying that
/// code; codes are interned identifiers, mapped from user-facing code
/// strings by the controller layer.
#[derive(Clone, Copy, Debug, PartialEq, Eq, Structural)]
pub struct PricingTier {
    pub id: u64,
    pub start_time: i64,
    pub end_time: i64,
    pub price_in_cents: u32,
    pub discount_code: Option<u64>,
}

impl PricingTier {
    /// A tier is well-formed when its price respects the global bound.
    pub open spec fn wf(self) -> bool {
        self.price_in_cents <= MAX_UNIT_PRICE_CENTS
    }
}

/// Whether the tier's window covers `at_time`.
pub open spec fn tier_active(tier: PricingTier, at_time: i64) -> bool {
    tier.start_time <= at_time < tier.end_time
}

/// Whether the tier is the one a request at `at_time` carrying
/// `discount_code` may use: active, and restricted to exactly that
/// code (`None` selects the unrestricted tier).
pub open spec fn tier_matches(tier: PricingTier, at_time: i64, discount_code: Option<u64>) -> bool {
    tier_active(tier, at_time) && tier.discount_code == discount_code
}

/// Which base amount the percentage fee is taken of: the unit price
/// alone, or the unit price with the flat fee already added.  The
/// application order of flat and percentage parts is configuration,
/// not a fixed rule.
#[derive(Clone, Copy, Debug, PartialEq, Eq, Structural)]
pub enum FeeBasis {
    UnitPrice,
    UnitPriceAndFlatFee,
}

/// A configured fee schedule: a flat part and a percentage part, each
/// independently optional.  The resulting fee is per unit; totals
/// multiply by quantity.
#[derive(Clone, Copy, Debug, PartialEq, Eq, Structural)]
pub struct FeeSchedule {
    pub flat_fee_cents: Option<u32>,
    pub percent_fee_bps: Option<u32>,
    pub basis: FeeBasis,
}

impl FeeSchedule {
    /// A schedule is well-formed when both parts respect the global
    /// bounds.
    pub open spec fn wf(self) -> bool {
        &&& match self.flat_fee_cents {
            Some(flat) => flat <= MAX_UNIT_PRICE_CENTS,
            None => true,
        }
        &&& match self.percent_fee_bps {
            Some(bps) => bps <= MAX_FEE_BPS,
            None => true,
        }
    }

    /// The per-unit fee this schedule yields on `price` (in cents,
    /// rounded down on the percentage part).
    pub open spec fn spec_fee_per_unit(self, price: u32) -> int {
        let flat = match self.flat_fee_cents {
            Some(f) => f as int,
            None => 0,
        };
        let bps = match self.percent_fee_bps {
            Some(b) => b as int,
            None => 0,
        };
        let base = match self.basis {
            FeeBasis::UnitPrice => price as int,
            FeeBasis::UnitPriceAndFlatFee => price as int + flat,
        };
        flat + (base * bps) / 10_000
    }

    /// Computes the per-unit fee.  The bounds in the postcondition are
    /// what keep order totals inside machine integers.
    pub fn fee_per_unit(&self, price: u32) -> (fee: u32)
        requires
            self.wf(),
            price <= MAX_UNIT_PRICE_CENTS,
        ensures
            fee == self.spec_fee_per_unit(price),
            fee <= MAX_FEE_CENTS,
            price + fee <= u32::MAX,
    {
        let flat: u64 = match self.flat_fee_cents {
            Some(f) => f as u64,
            None => 0,
        };
        let bps: u64 = match self.percent_fee_bps {
            Some(b) => b as u64,
            None => 0,
        };
        let base: u64 = match self.basis {
            FeeBasis::UnitPrice => price as u64,
            FeeBasis::UnitPriceAndFlatFee => price as u64 + flat,
        };
        assert(base * bps <= 2_000_000_000 * 10_000) by (nonlinear_arith)
            requires
                base <= 2_000_000_000,
                bps <= 10_000,
        ;
        let pct: u64 = (base * bps) / 10_000;
        proof {
            lemma_div_is_ordered((base * bps) as int, 20_000_000_000_000, 10_000);
        }
        (flat + pct) as u32
    }
}

/// The first index in `tiers` whose tier matches, or `-1` if none
/// does.  The earliest tier in the configured order wins.
pub open spec fn first_match(
    tiers: Seq<PricingTier>,
    at_time: i64,
    discount_code: Option<u64>,
) -> int
    decreases tiers.len(),
{
    if tiers.len() == 0 {
        -1
    } else if tier_matches(tiers[0], at_time, discount_code) {
        0
    } else {
        let rest = first_match(tiers.drop_first(), at_time, discount_code);
        if rest < 0 {
            -1
        } else {
            rest + 1
        }
    }
}

/// `first_match` returns exactly the first matching index: a matching
/// index with no earlier match is the result, and if nothing up to the
/// end matches the result is `-1`.
pub proof fn lemma_first_match(tiers: Seq<PricingTier>, at_time: i64, discount_code: Option<u64>)
    ensures
        (exists|k: int|
            0 <= k < tiers.len() && tier_matches(tiers[k], at_time, discount_code)) <==> 0
            <= first_match(tiers, at_time, discount_code),
        forall|i: int|
            (0 <= i < tiers.len() && tier_matches(tiers[i], at_time, discount_code) && forall|
                k: int,
            | 0 <= k < i ==> !tier_matches(tiers[k], at_time, discount_code)) ==> first_match(
                tiers,
                at_time,
                discount_code,
            ) == i,
        0 <= first_match(tiers, at_time, discount_code) ==> first_match(
            tiers,
            at_time,
            discount_code,
        ) < tiers.len() && tier_matches(
            tiers[first_match(tiers, at_time, discount_code)],
            at_time,
            discount_code,
        ),
    decreases tiers.len(),
{
    if tiers.len() > 0 {
        lemma_first_match(tiers.drop_first(), at_time, discount_code);
        assert forall|i: int|
            (0 <= i < tiers.len() && tier_matches(tiers[i], at_time, discount_code) && forall|
                k: int,
            | 0 <= k < i ==> !tier_matches(tiers[k], at_time, discount_code)) implies first_match(
            tiers,
            at_time,
            discount_code,
        ) == i by {
            if i > 0 {
                assert(!tier_matches(tiers[0], at_time, discount_code));
                let rest = tiers.drop_first();
                assert(rest[i - 1] == tiers[i]);
                assert forall|k: int| 0 <= k < i - 1 implies !tier_matches(
                    rest[k],
                    at_time,
                    discount_code,
                ) by {
                    assert(rest[k] == tiers[k + 1]);
                }
            }
        }
        if exists|k: int| 0 <= k < tiers.len() && tier_matches(tiers[k], at_time, discount_code) {
            let k = choose|k: int|
                0 <= k < tiers.len() && tier_matches(tiers[k], at_time, discount_code);
            if k > 0 && !tier_matches(tiers[0], at_time, discount_code) {
                assert(tiers.drop_first()[k - 1] == tiers[k]);
            }
        }
        if 0 <= first_match(tiers, at_time, discount_code) && !tier_matches(
            tiers[0],
            at_time,
            discount_code,
        ) {
            let r = first_match(tiers.drop_first(), at_time, discount_code);
            assert(tiers.drop_first()[r] == tiers[r + 1]);
        }
    }
}

/// Whether any tier at all covers `at_time`; decides between the
/// "nothing on sale" and "bad code" errors.
pub open spec fn any_active(tiers: Seq<PricingTier>, at_time: i64) -> bool {
    exists|i: int| 0 <= i < tiers.len() && tier_active(tiers[i], at_time)
}

/// The authoritative per-unit price, per-unit fee and audited tier for
/// one resolution.
#[derive(Clone, Copy, Debug, PartialEq, Eq, Structural)]
pub struct PriceQuote {
    pub unit_price_in_cents: u32,
    pub fee_in_cents: u32,
    pub pricing_tier_id: u64,
}

impl PriceQuote {
    /// Bounds that every resolved quote satisfies.
    pub open spec fn wf(self) -> bool {
        &&& self.unit_price_in_cents <= MAX_UNIT_PRICE_CENTS
        &&& self.unit_price_in_cents + self.fee_in_cents <= u32::MAX
    }
}

/// Lifecycle of a ticket type's sale window, for display.
#[derive(Clone, Copy, Debug, PartialEq, Eq, Structural)]
pub enum TicketTypeStatus {
    OnSaleSoon,
    OnSale,
    SalesEnded,
}

impl TicketTypeStatus {
    /// The display name of the status; stands in for `Display`.
    pub fn name(&self) -> (n: &'static str)
        ensures
            self == TicketTypeStatus::OnSaleSoon ==> n@ == "OnSaleSoon"@,
            self == TicketTypeStatus::OnSale ==> n@ == "OnSale"@,
            self == TicketTypeStatus::SalesEnded ==> n@ == "SalesEnded"@,
    {
        match self {
            TicketTypeStatus::OnSaleSoon => "OnSaleSoon",
            TicketTypeStatus::OnSale => "OnSale",
            TicketTypeStatus::SalesEnded => "SalesEnded",
        }
    }
}

/// One sellable class of ticket for an event: identity, sale window,
/// the ordered pricing tiers, and the configured fee schedule.  The
/// fixed capacity lives in the ticket type's inventory ledger row.
pub struct TicketType {
    pub id: u64,
    pub event_id: u64,
    pub name: String,
    pub start_date: i64,
    pub end_date: i64,
    pub pricing_tiers: Vec<PricingTier>,
    pub fee_schedule: FeeSchedule,
}

impl TicketType {
    /// Well-formedness: the schedule and every tier respect the price
    /// bounds.
    pub open spec fn wf(self) -> bool {
        &&& self.fee_schedule.wf()
        &&& forall|i: int| 0 <= i < self.pricing_tiers@.len() ==> (#[trigger] self.pricing_tiers@[i]).wf()
    }

    /// Whether a request at `at_time` with `discount_code` resolves to
    /// a tier.
    pub open spec fn spec_has_quote(self, at_time: i64, discount_code: Option<u64>) -> bool {
        exists|k: int|
            0 <= k < self.pricing_tiers@.len() && tier_matches(
                self.pricing_tiers@[k],
                at_time,
                discount_code,
            )
    }

    /// The quote such a request resolves to (meaningful when
    /// `spec_has_quote` holds).
    pub open spec fn spec_quote(self, at_time: i64, discount_code: Option<u64>) -> PriceQuote {
        let tier = self.pricing_tiers@[first_match(self.pricing_tiers@, at_time, discount_code)];
        PriceQuote {
            unit_price_in_cents: tier.price_in_cents,
            fee_in_cents: self.fee_schedule.spec_fee_per_unit(tier.price_in_cents) as u32,
            pricing_tier_id: tier.id,
        }
    }

    /// The error a request that resolves to no tier gets: `NoActiveTier`
    /// when no usable tier covers the time at all, `InvalidDiscountCode`
    /// when tiers are active but the supplied code matches none of them.
    pub open spec fn spec_quote_error(self, at_time: i64, discount_code: Option<u64>) -> EngineError {
        if discount_code is Some && any_active(self.pricing_tiers@, at_time) {
            EngineError::InvalidDiscountCode
        } else {
            EngineError::NoActiveTier
        }
    }

    /// Resolves the applicable unit price, per-unit fee and tier for a
    /// request at `at_time` carrying `discount_code`.  Succeeds if and
    /// only if some tier matches; the first matching tier in the
    /// configured order is authoritative.
    pub fn price_for(&self, at_time: i64, discount_code: Option<u64>) -> (r: Result<
        PriceQuote,
        EngineError,
    >)
        requires
            self.wf(),
        ensures
            r is Ok <==> self.spec_has_quote(at_time, discount_code),
            r is Ok ==> r == Result::<PriceQuote, EngineError>::Ok(
                self.spec_quote(at_time, discount_code),
            ) && self.spec_quote(at_time, discount_code).wf(),
            r is Err ==> r == Result::<PriceQuote, EngineError>::Err(
                self.spec_quote_error(at_time, discount_code),
            ),
    {
        let ghost tiers = self.pricing_tiers@;
        proof {
            lemma_first_match(tiers, at_time, discount_code);
        }
        let n = self.pricing_tiers.len();
        let mut i: usize = 0;
        let mut saw_active: bool = false;
        while i < n
            invariant
                i <= n,
                n == tiers.len(),
                tiers == self.pricing_tiers@,
                self.wf(),
                forall|k: int| 0 <= k < i ==> !tier_matches(tiers[k], at_time, discount_code),
                saw_active <==> exists|k: int| 0 <= k < i && tier_active(tiers[k], at_time),
            decreases n - i,
        {
            let tier = self.pricing_tiers[i];
            let active = tier.start_time <= at_time && at_time < tier.end_time;
            let code_matches = match (tier.discount_code, discount_code) {
                (Option::None, Option::None) => true,
                (Option::Some(a), Option::Some(b)) => a == b,
                _ => false,
            };
            if active && code_matches {
                proof {
                    lemma_first_match(tiers, at_time, discount_code);
                    assert(first_match(tiers, at_time, discount_code) == i as int);
                }
                let fee = self.fee_schedule.fee_per_unit(tier.price_in_cents);
                return Ok(
                    PriceQuote {
                        unit_price_in_cents: tier.price_in_cents,
                        fee_in_cents: fee,
                        pricing_tier_id: tier.id,
                    },
                );
            }
            if active {
                saw_active = true;
            }
            i += 1;
        }
        match discount_code {
            Option::Some(_) if saw_active => Err(EngineError::InvalidDiscountCode),
            _ => Err(EngineError::NoActiveTier),
        }
    }

    /// Where `now` stands in the ticket type's sale window.
    pub fn status(&self, now: i64) -> (s: TicketTypeStatus)
        ensures
            s == (if now < self.start_date {
                TicketTypeStatus::OnSaleSoon
            } else if now < self.end_date {
                TicketTypeStatus::OnSale
            } else {
                TicketTypeStatus::SalesEnded
            }),
    {
        if now < self.start_date {
            TicketTypeStatus::OnSaleSoon
        } else if now < self.end_date {
            TicketTypeStatus::OnSale
        } else {
            TicketTypeStatus::SalesEnded
        }
    }
}

/// No two ticket types in a catalog share an identifier.
pub open spec fn ticket_types_unique(tts: Seq<TicketType>) -> bool {
    forall|i: int, j: int| 0 <= i < j < tts.len() ==> tts[i].id != tts[j].id
}

} // verus!
