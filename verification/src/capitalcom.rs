//! Capital.com.
//!
//! Holds what a session needs. Sessions and streaming for trading belong to the consumer's own
//! broker connection; this module is for historical bars alone.
use vstd::prelude::*;

verus! {

/// A connection to the Capital.com REST API.
#[derive(Debug)]
pub struct CapitalComAdapter {
    pub api_key: String,
}

impl CapitalComAdapter {
    /// A connection with an API key.
    pub fn new(api_key: &str) -> (adapter: CapitalComAdapter)
        ensures
            adapter.api_key@ == api_key@,
    {
        CapitalComAdapter { api_key: api_key.to_owned() }
    }
}

} // verus!
