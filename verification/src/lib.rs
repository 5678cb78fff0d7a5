//! Market-data connectors: what to ask each provider for, and what its answers mean.
//!
//! Each provider has an adapter. An adapter never sends anything itself: it builds a
//! [`request::Request`], and it is given the [`request::Reply`]. An operation that needs several
//! requests goes step by step, and each step names the request that it waits for. So everything that
//! a provider may answer is covered by the contracts, and the transport stays outside.
//!
//! - [`eodhd`]: end-of-day bars, intraday bars and delayed quotes.
//! - [`massive`]: futures bars with the volume of the exchange, for the front month of a product.
//! - [`capitalcom`], [`ib`]: what a connection to these needs.
//!
//! [`laws`] says what holds of all of them.
//!
//! All bars are [`bar::Bar`]s. [`civil_date`], [`double`], [`order`] and [`text`] are what the
//! adapters are built from.
pub mod bar;
pub mod capitalcom;
pub mod civil_date;
pub mod double;
pub mod eodhd;
pub mod ib;
pub mod laws;
pub mod massive;
pub mod order;
pub mod request;
pub mod text;
pub mod timeframe;
