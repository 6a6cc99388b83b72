//! Inventory bookkeeping with a verified stock-alert engine.
//!
//! The heart of the crate is [`alerts`]: classification of stock levels,
//! reconciliation of the active alert list against an inventory snapshot,
//! and the bounded alert history. [`throttle`] decides when a notification
//! for an alert may be forwarded to a delivery channel.
use vstd::prelude::*;

pub mod alerts;
pub mod audit;
pub mod auth;
mod support;
pub mod password;
pub mod lifecycle;
pub mod note;
pub mod similar;
pub mod text;
pub mod throttle;
pub mod user;

verus! {

} // verus!
