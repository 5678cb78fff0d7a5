//! Massive (<https://massive.com>): futures bars.
//!
//! The purpose is the volume of the exchange. A broker's prices come with the volume of that broker
//! alone.
//!
//! A symbol is a product code (`NG`), not a contract (`NGV26`). Contracts expire, and the bars of an
//! expired one are an empty list, not an error. So each operation first finds the front month of the
//! product, which has the highest volume of the contracts that expire next, and keeps it for a while.
//!
//! Of the interface:
//! - A bar's `window_start` is in nanoseconds, a [`crate::bar::Bar`]'s timestamp in seconds.
//! - Bars come in descending order, whatever order is asked for.
//! - The contract list is alphabetic and has butterflies (`NG:BF F7-G7-H7`) and calendar spreads
//!   (`NGF7-NGF8`) before the single contracts. Neither is of use here.
//! - Without a date the list starts with rows from years ago.
pub mod adapter;
pub mod aggregates;
pub mod contract;
pub mod front_month;

pub use adapter::{MassiveAdapter, Purpose, Step};
pub use aggregates::{nanos, read_aggs, resolution_of, AggRow};
pub use contract::{far_future, is_outright, ContractListing, ContractRow};
pub use front_month::{ContractSearch, FrontMonth, VolumeSearch};
