//! The static directory of JSON-RPC providers for each Ethereum network.

use vstd::prelude::*;

verus! {

/// The Ethereum network that the minter is connected to.
#[derive(Clone, Copy, Debug, PartialEq, Eq, Structural)]
pub enum EthereumNetwork {
    Mainnet,
    Sepolia,
}

/// Providers serving Ethereum mainnet.
#[derive(Clone, Copy, Debug, PartialEq, Eq, PartialOrd, Ord, Hash, Structural)]
pub enum EthereumProvider {
    Ankr,
    PublicNode,
    Cloudflare,
}

/// Providers serving the Sepolia test network.
#[derive(Clone, Copy, Debug, PartialEq, Eq, PartialOrd, Ord, Hash, Structural)]
pub enum SepoliaProvider {
    Ankr,
    PublicNode,
}

/// One data source. Providers are totally ordered by `rank`, which is the
/// order that the derived `Ord` gives as well.
#[derive(Clone, Copy, Debug, PartialEq, Eq, PartialOrd, Ord, Hash, Structural)]
pub enum RpcNodeProvider {
    Ethereum(EthereumProvider),
    Sepolia(SepoliaProvider),
}

impl RpcNodeProvider {
    /// Position of the provider in the total order over all providers.
    pub open spec fn spec_rank(self) -> nat {
        match self {
            RpcNodeProvider::Ethereum(EthereumProvider::Ankr) => 0,
            RpcNodeProvider::Ethereum(EthereumProvider::PublicNode) => 1,
            RpcNodeProvider::Ethereum(EthereumProvider::Cloudflare) => 2,
            RpcNodeProvider::Sepolia(SepoliaProvider::Ankr) => 3,
            RpcNodeProvider::Sepolia(SepoliaProvider::PublicNode) => 4,
        }
    }

    pub fn rank(&self) -> (r: u8)
        ensures
            r as nat == self.spec_rank(),
    {
        match self {
            RpcNodeProvider::Ethereum(EthereumProvider::Ankr) => 0,
            RpcNodeProvider::Ethereum(EthereumProvider::PublicNode) => 1,
            RpcNodeProvider::Ethereum(EthereumProvider::Cloudflare) => 2,
            RpcNodeProvider::Sepolia(SepoliaProvider::Ankr) => 3,
            RpcNodeProvider::Sepolia(SepoliaProvider::PublicNode) => 4,
        }
    }

    /// The endpoint of the provider.
    pub fn url(&self) -> (r: &'static str)
        ensures
            r@ == match self {
                RpcNodeProvider::Ethereum(EthereumProvider::Ankr) => "https://rpc.ankr.com/eth"@,
                RpcNodeProvider::Ethereum(EthereumProvider::PublicNode) => "https://ethereum.publicnode.com"@,
                RpcNodeProvider::Ethereum(EthereumProvider::Cloudflare) => "https://cloudflare-eth.com"@,
                RpcNodeProvider::Sepolia(SepoliaProvider::Ankr) => "https://rpc.ankr.com/eth_sepolia"@,
                RpcNodeProvider::Sepolia(SepoliaProvider::PublicNode) => "https://ethereum-sepolia.publicnode.com"@,
            },
    {
        match self {
            RpcNodeProvider::Ethereum(EthereumProvider::Ankr) => "https://rpc.ankr.com/eth",
            RpcNodeProvider::Ethereum(EthereumProvider::PublicNode) => "https://ethereum.publicnode.com",
            RpcNodeProvider::Ethereum(EthereumProvider::Cloudflare) => "https://cloudflare-eth.com",
            RpcNodeProvider::Sepolia(SepoliaProvider::Ankr) => "https://rpc.ankr.com/eth_sepolia",
            RpcNodeProvider::Sepolia(SepoliaProvider::PublicNode) => "https://ethereum-sepolia.publicnode.com",
        }
    }
}

/// Distinct providers have distinct ranks.
pub proof fn lemma_rank_injective(p: RpcNodeProvider, q: RpcNodeProvider)
    ensures
        p.spec_rank() == q.spec_rank() <==> p == q,
{
}

/// The providers of a network, in the order in which they are tried.
pub open spec fn network_providers(network: EthereumNetwork) -> Seq<RpcNodeProvider> {
    match network {
        EthereumNetwork::Mainnet => seq![
            RpcNodeProvider::Ethereum(EthereumProvider::Ankr),
            RpcNodeProvider::Ethereum(EthereumProvider::PublicNode),
            RpcNodeProvider::Ethereum(EthereumProvider::Cloudflare),
        ],
        EthereumNetwork::Sepolia => seq![
            RpcNodeProvider::Sepolia(SepoliaProvider::Ankr),
            RpcNodeProvider::Sepolia(SepoliaProvider::PublicNode),
        ],
    }
}

/// The providers of `network`, listed without repetition.
pub fn providers_of(network: EthereumNetwork) -> (r: Vec<RpcNodeProvider>)
    ensures
        r@ == network_providers(network),
        r@.len() > 0,
        r@.no_duplicates(),
{
    let r = match network {
        EthereumNetwork::Mainnet => vec![
            RpcNodeProvider::Ethereum(EthereumProvider::Ankr),
            RpcNodeProvider::Ethereum(EthereumProvider::PublicNode),
            RpcNodeProvider::Ethereum(EthereumProvider::Cloudflare),
        ],
        EthereumNetwork::Sepolia => vec![
            RpcNodeProvider::Sepolia(SepoliaProvider::Ankr),
            RpcNodeProvider::Sepolia(SepoliaProvider::PublicNode),
        ],
    };
    assert(r@ == network_providers(network));
    r
}

} // verus!
