//! Client-side view of a node: the status record and the endpoint URLs.

use vstd::prelude::*;

verus! {

#[derive(Debug)]
pub struct NetworkStatus {
    pub network: String,
    pub coin: String,
    pub symbol: String,
    pub chain_length: u64,
    pub latest_height: u64,
}

pub struct DevilChainClient {
    pub base_url: String,
}

impl DevilChainClient {
    pub fn new(base_url: &str) -> (r: Self)
        ensures
            r.base_url@ == base_url@,
    {
        DevilChainClient { base_url: base_url.to_owned() }
    }

    /// `{base}/api/status`.
    pub fn status_url(&self) -> (u: String)
        ensures
            u@ == self.base_url@ + "/api/status"@,
    {
        let mut u = self.base_url.clone();
        u.append("/api/status");
        u
    }

    /// `{base}/api/block/latest`.
    pub fn latest_block_url(&self) -> (u: String)
        ensures
            u@ == self.base_url@ + "/api/block/latest"@,
    {
        let mut u = self.base_url.clone();
        u.append("/api/block/latest");
        u
    }

    /// `{base}/api/wallet/{addr}`.
    pub fn wallet_url(&self, addr: &str) -> (u: String)
        ensures
            u@ == self.base_url@ + "/api/wallet/"@ + addr@,
    {
        let mut u = self.base_url.clone();
        u.append("/api/wallet/");
        u.append(addr);
        u
    }
}

} // verus!
