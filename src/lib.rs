//! Per-contact statistics over a line-oriented XML export of SMS history.

pub mod driver;
pub mod entity;
pub mod ledger;
pub mod message;
pub mod positional;
pub mod number;
pub mod order;
pub mod text;
