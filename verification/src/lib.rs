//! A ticket inventory reservation and order-pricing engine.
//!
//! The library keeps per-ticket-type capacity accounting (an inventory
//! ledger of total, held and sold units), resolves time-boxed pricing
//! tiers with fee schedules, and owns the lifecycle of a buyer's cart
//! from its first held line item to a paid order, an explicit
//! cancellation, or reclamation by the expiry sweeper.  Every operation
//! is specified and verified: no sequence of calls can push a ticket
//! type's `held + sold` past its `total`.

pub mod config;
pub mod errors;
pub mod laws;
pub mod ledger;
pub mod logfmt;
pub mod order_builder;
pub mod pricing;
pub mod cart;
pub mod display;
pub mod engine;
