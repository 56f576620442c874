//! Verified core of a local ranking tracker: an in-memory record store with
//! exact operation semantics (sessions of ranked records, a managed catalog,
//! deduplicated reviews), the calendar logic behind its once-per-day job
//! scheduling, and the pure text transformations of its companion editor.

pub mod clock;
pub mod date;
pub mod laws;
pub mod mdx;
pub mod publish;
pub mod scheduler;
pub mod slug;
pub mod store;
pub mod text;
pub mod types;

pub use date::Date;
