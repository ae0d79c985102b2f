//! Typed REST operations for a trading-platform API.
//!
//! The crate centres on three pieces: an exact scaled-decimal numeric type
//! for monetary figures, a small JSON wire codec, and a dispatcher that
//! interprets HTTP status codes against a per-endpoint error taxonomy.

pub mod account;
pub mod codec;
pub mod decimal;
pub mod dispatch;
