//! The part of the minter's state that selects the providers.

use vstd::prelude::*;
use crate::providers::EthereumNetwork;

verus! {

/// The minter's state, as far as provider selection is concerned.
#[derive(Clone, Copy, Debug, PartialEq, Eq, Structural)]
pub struct State {
    ethereum_network: EthereumNetwork,
}

impl State {
    pub closed spec fn spec_ethereum_network(self) -> EthereumNetwork {
        self.ethereum_network
    }

    pub fn new(ethereum_network: EthereumNetwork) -> (r: Self)
        ensures
            r.spec_ethereum_network() == ethereum_network,
    {
        State { ethereum_network }
    }

    /// The network that the minter is connected to.
    pub fn ethereum_network(&self) -> (r: EthereumNetwork)
        ensures
            r == self.spec_ethereum_network(),
    {
        self.ethereum_network
    }
}

} // verus!
