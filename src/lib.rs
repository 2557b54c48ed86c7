//! A clipboard history: a bounded, deduplicated, pin-aware list of copied
//! texts, with search, and the decisions of the watcher that feeds it.
pub mod entry;
pub mod history;
pub mod manager;
pub mod text;
