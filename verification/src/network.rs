//! The fixed set of networks whose pin registries are queried.

use vstd::prelude::*;

verus! {

/// One of the networks with a pin registry. The set is static configuration:
/// it never changes at runtime.
#[derive(Clone, Copy, Debug, PartialEq, Eq, Structural)]
pub enum Network {
    Goerli,
    Ethereum,
    Mumbai,
    Polygon,
}

impl Network {
    /// The lowercase name of the network, as it appears in endpoint paths.
    pub open spec fn spec_name(self) -> Seq<char> {
        match self {
            Network::Goerli => "goerli"@,
            Network::Ethereum => "ethereum"@,
            Network::Mumbai => "mumbai"@,
            Network::Polygon => "polygon"@,
        }
    }

    /// The lowercase name of the network.
    pub fn name(&self) -> (r: &'static str)
        ensures
            r@ == self.spec_name(),
    {
        match self {
            Network::Goerli => "goerli",
            Network::Ethereum => "ethereum",
            Network::Mumbai => "mumbai",
            Network::Polygon => "polygon",
        }
    }

    /// Every network, in a fixed order, one entry each.
    pub fn all() -> (r: Vec<Network>)
        ensures
            r@ == seq![Network::Goerli, Network::Ethereum, Network::Mumbai, Network::Polygon],
    {
        let mut v: Vec<Network> = Vec::new();
        v.push(Network::Goerli);
        v.push(Network::Ethereum);
        v.push(Network::Mumbai);
        v.push(Network::Polygon);
        proof {
            assert(v@ =~= seq![
                Network::Goerli,
                Network::Ethereum,
                Network::Mumbai,
                Network::Polygon,
            ]);
        }
        v
    }
}

} // verus!
