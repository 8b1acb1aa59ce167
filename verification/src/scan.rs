//! The scanning engine.

pub mod collector;
pub mod driver;
pub mod entry;
pub mod ledger;
pub mod locator;
pub mod phase;
pub mod token;
pub mod walker;
