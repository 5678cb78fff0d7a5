//! What holds of the connectors, written out.
//!
//! Each law speaks of inputs and results field by field and character by character, so it can be read
//! without the definitions that the contracts are built from. Where a law needs a choice of indices,
//! its proof function returns them.
pub mod calendar;
pub mod end_of_day;
pub mod front_months;
pub mod futures;
pub mod numbers;
pub mod quotes;
pub mod sorting;
pub mod views;
