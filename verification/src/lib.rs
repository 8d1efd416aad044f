//! A clipboard-history store: a toggle-controlled, newest-first log of timestamped
//! text snippets, with a verified JSON rendering of the log for persistence
//! and a plain-text rendering for export.

pub mod clock;
pub mod codec;
pub mod context;
pub mod entry;
pub mod errors;
pub mod monitor;
pub mod store;
pub mod strutil;
