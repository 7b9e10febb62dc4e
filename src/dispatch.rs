//! Fallback dispatch: providers are asked one at a time, in order, until one
//! answers. The calls themselves are made by the caller, which hands each
//! outcome back.

use vstd::prelude::*;
use crate::eth_rpc::{HttpOutcallResult, JsonRpcResult};
use crate::eth_rpc_client::EthRpcClient;
use crate::providers::{network_providers, RpcNodeProvider};

verus! {

/// The progress of a query sent to providers in order until one of them
/// answers. An answer is any outcome whose transport succeeded, even one
/// that carries a JSON-RPC error.
pub struct SequentialCallUntilOk<T> {
    providers: Vec<RpcNodeProvider>,
    asked: usize,
    last_result: Option<HttpOutcallResult<JsonRpcResult<T>>>,
    received: Ghost<Seq<HttpOutcallResult<JsonRpcResult<T>>>>,
}

impl<T> SequentialCallUntilOk<T> {
    /// The providers, in the order in which they are asked.
    pub closed spec fn spec_providers(&self) -> Seq<RpcNodeProvider> {
        self.providers@
    }

    /// The outcomes handed back so far, one per provider asked.
    pub closed spec fn received(&self) -> Seq<HttpOutcallResult<JsonRpcResult<T>>> {
        self.received@
    }

    pub closed spec fn wf(&self) -> bool {
        &&& self.providers@.len() > 0
        &&& self.received@.len() <= self.providers@.len()
        &&& self.asked == self.received@.len()
        &&& self.last_result == if self.received@.len() == 0 {
            None
        } else {
            Some(self.received@.last())
        }
        &&& forall|i: int| 0 <= i < self.received@.len() - 1 ==> (#[trigger] self.received@[i]).is_err()
    }

    /// No provider is left to ask: one answered, or every one failed.
    pub open spec fn is_finished(&self) -> bool {
        ||| self.received().len() == self.spec_providers().len()
        ||| (self.received().len() > 0 && self.received().last().is_ok())
    }

    /// Starts a query to `providers`; asking no provider at all is a
    /// programming error and is not admitted.
    pub fn new(providers: Vec<RpcNodeProvider>) -> (r: Self)
        requires
            providers@.len() > 0,
        ensures
            r.wf(),
            r.spec_providers() == providers@,
            r.received().len() == 0,
    {
        SequentialCallUntilOk { providers, asked: 0, last_result: None, received: Ghost(Seq::empty()) }
    }

    /// The provider to ask next, if any.
    pub fn next_provider(&self) -> (r: Option<RpcNodeProvider>)
        requires
            self.wf(),
        ensures
            self.is_finished() ==> r.is_none(),
            !self.is_finished() ==> r == Some(self.spec_providers()[self.received().len() as int]),
    {
        let n = self.providers.len();
        match &self.last_result {
            Some(Ok(_)) => None,
            _ => {
                if self.asked < n {
                    Some(self.providers[self.asked])
                } else {
                    None
                }
            },
        }
    }

    /// Records the outcome of the provider that `next_provider` named.
    pub fn record(&mut self, outcome: HttpOutcallResult<JsonRpcResult<T>>)
        requires
            old(self).wf(),
            !old(self).is_finished(),
        ensures
            final(self).wf(),
            final(self).spec_providers() == old(self).spec_providers(),
            final(self).received() == old(self).received().push(outcome),
    {
        let ghost received = self.received@.push(outcome);
        let provider_count = self.providers.len();
        proof {
            assert(self.asked < provider_count);
            assert(received.drop_last() =~= self.received@);
        }
        self.last_result = Some(outcome);
        self.received = Ghost(received);
        self.asked += 1;
    }

    /// The outcome of the query: the first answer, or the last transport
    /// failure when no provider answered.
    pub fn into_result(self) -> (r: HttpOutcallResult<JsonRpcResult<T>>)
        requires
            self.wf(),
            self.is_finished(),
        ensures
            r == self.received().last(),
            forall|i: int| 0 <= i < self.received().len() - 1 ==> (#[trigger] self.received()[i]).is_err(),
    {
        self.last_result.unwrap()
    }
}

impl EthRpcClient {
    /// Starts a fallback query over the client's providers.
    pub fn sequential_call_until_ok<T>(&self) -> (r: SequentialCallUntilOk<T>)
        ensures
            r.wf(),
            r.spec_providers() == network_providers(self.spec_chain()),
            r.received().len() == 0,
    {
        SequentialCallUntilOk::new(self.providers())
    }
}

} // verus!
