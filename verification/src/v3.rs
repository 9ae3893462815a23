//! The flag-driven header: a presence mask followed by the values that are set.

pub mod compact;
pub mod field;
pub mod flags;
pub mod header;
pub mod keyed;
mod keyed_proofs;
pub mod le;
pub mod message;
pub mod params;

pub use field::{DecodeError, Field};
pub use flags::ComputeBudgetFlags;
pub use header::ComputeBudgetHeader;
pub use message::{const_max, Message, MessageHeader};
pub use params::BudgetParameters;
