//! The pin registry endpoint of one network.

pub mod pin;

use vstd::prelude::*;
use crate::network::Network;

verus! {

/// One pin registry, bound to the network it indexes.
pub struct Subgraph {
    pub network: Network,
}

impl Subgraph {
    /// The endpoint text: the common base location, the registry name and
    /// the network name, joined with a dash.
    pub open spec fn spec_url(self) -> Seq<char> {
        "https://api.thegraph.com/subgraphs/name/gildlab/"@ + "offchainassetvault"@ + "-"@
            + self.network.spec_name()
    }

    /// The full endpoint of this network's pin registry.
    pub fn url(&self) -> (r: String)
        ensures
            r@ == self.spec_url(),
    {
        let mut s = String::from_str("https://api.thegraph.com/subgraphs/name/gildlab/");
        s.append("offchainassetvault");
        s.append("-");
        s.append(self.network.name());
        s
    }
}

} // verus!
