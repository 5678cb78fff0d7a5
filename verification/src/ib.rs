//! Interactive Brokers.
//!
//! Holds where a Gateway or TWS process listens. Bars come from that process, not from a plain
//! REST call.
use vstd::prelude::*;

verus! {

/// A connection to an Interactive Brokers Gateway or TWS.
#[derive(Debug)]
pub struct IbAdapter {
    pub host: String,
    pub port: u16,
}

impl IbAdapter {
    /// A connection to the process that listens at `host` and `port`.
    pub fn new(host: &str, port: u16) -> (adapter: IbAdapter)
        ensures
            adapter.host@ == host@,
            adapter.port == port,
    {
        IbAdapter { host: host.to_owned(), port }
    }
}

} // verus!
