//! The JSON-RPC methods that the minter calls, each bound to how it is
//! dispatched, how large its answer may be, and how answers are reconciled.

use vstd::prelude::*;
use crate::eth_rpc::ResponseSizeEstimate;

verus! {

/// The JSON-RPC methods that the minter calls.
#[derive(Clone, Copy, Debug, PartialEq, Eq, Structural)]
pub enum EthRpcMethod {
    GetLogs,
    GetBlockByNumber,
    GetTransactionByHash,
    GetTransactionReceipt,
    FeeHistory,
    SendRawTransaction,
    GetTransactionCount,
}

/// How a query reaches the providers.
#[derive(Clone, Copy, Debug, PartialEq, Eq, Structural)]
pub enum Dispatch {
    /// One provider at a time, until one answers; for reads that cannot
    /// lead to a wrong mint.
    SequentialUntilOk,
    /// Every provider at once, every outcome kept.
    Parallel,
}

/// How the outcomes of a parallel query become one value.
#[derive(Clone, Copy, Debug, PartialEq, Eq, Structural)]
pub enum Reduction {
    /// A single answer: nothing to reconcile.
    SingleAnswer,
    /// All providers must give the same value.
    Equality,
    /// The smallest value is taken.
    MinByKey,
}

impl EthRpcMethod {
    pub open spec fn spec_dispatch(self) -> Dispatch {
        match self {
            EthRpcMethod::FeeHistory | EthRpcMethod::SendRawTransaction => Dispatch::SequentialUntilOk,
            _ => Dispatch::Parallel,
        }
    }

    pub open spec fn spec_reduction(self) -> Reduction {
        match self {
            EthRpcMethod::FeeHistory | EthRpcMethod::SendRawTransaction => Reduction::SingleAnswer,
            EthRpcMethod::GetTransactionCount => Reduction::MinByKey,
            _ => Reduction::Equality,
        }
    }

    pub open spec fn spec_response_size_estimate(self) -> u64 {
        match self {
            EthRpcMethod::GetLogs => 100,
            EthRpcMethod::GetBlockByNumber => 6144,
            EthRpcMethod::GetTransactionByHash => 1200,
            EthRpcMethod::GetTransactionReceipt => 700,
            EthRpcMethod::FeeHistory => 512,
            EthRpcMethod::SendRawTransaction => 256,
            EthRpcMethod::GetTransactionCount => 50,
        }
    }

    /// The method's name on the wire.
    pub fn name(&self) -> (r: &'static str)
        ensures
            r@ == match self {
                EthRpcMethod::GetLogs => "eth_getLogs"@,
                EthRpcMethod::GetBlockByNumber => "eth_getBlockByNumber"@,
                EthRpcMethod::GetTransactionByHash => "eth_getTransactionByHash"@,
                EthRpcMethod::GetTransactionReceipt => "eth_getTransactionReceipt"@,
                EthRpcMethod::FeeHistory => "eth_feeHistory"@,
                EthRpcMethod::SendRawTransaction => "eth_sendRawTransaction"@,
                EthRpcMethod::GetTransactionCount => "eth_getTransactionCount"@,
            },
    {
        match self {
            EthRpcMethod::GetLogs => "eth_getLogs",
            EthRpcMethod::GetBlockByNumber => "eth_getBlockByNumber",
            EthRpcMethod::GetTransactionByHash => "eth_getTransactionByHash",
            EthRpcMethod::GetTransactionReceipt => "eth_getTransactionReceipt",
            EthRpcMethod::FeeHistory => "eth_feeHistory",
            EthRpcMethod::SendRawTransaction => "eth_sendRawTransaction",
            EthRpcMethod::GetTransactionCount => "eth_getTransactionCount",
        }
    }

    /// Reads that gate minting go to every provider; the others fall back
    /// from one provider to the next.
    pub fn dispatch(&self) -> (r: Dispatch)
        ensures
            r == self.spec_dispatch(),
    {
        match self {
            EthRpcMethod::FeeHistory | EthRpcMethod::SendRawTransaction => Dispatch::SequentialUntilOk,
            _ => Dispatch::Parallel,
        }
    }

    /// Chain data must agree exactly; a transaction count is read
    /// conservatively as the smallest one reported.
    pub fn reduction(&self) -> (r: Reduction)
        ensures
            r == self.spec_reduction(),
    {
        match self {
            EthRpcMethod::FeeHistory | EthRpcMethod::SendRawTransaction => Reduction::SingleAnswer,
            EthRpcMethod::GetTransactionCount => Reduction::MinByKey,
            _ => Reduction::Equality,
        }
    }

    /// An upper bound on the size of an answer. Most log queries return no
    /// event; a raw transaction is mostly answered with a short error, since
    /// the same transaction is sent from several nodes.
    pub fn response_size_estimate(&self) -> (r: ResponseSizeEstimate)
        ensures
            r.spec_get() == self.spec_response_size_estimate(),
    {
        let num_bytes: u64 = match self {
            EthRpcMethod::GetLogs => 100,
            EthRpcMethod::GetBlockByNumber => 6 * 1024,
            EthRpcMethod::GetTransactionByHash => 1200,
            EthRpcMethod::GetTransactionReceipt => 700,
            EthRpcMethod::FeeHistory => 512,
            EthRpcMethod::SendRawTransaction => 256,
            EthRpcMethod::GetTransactionCount => 50,
        };
        ResponseSizeEstimate::new(num_bytes)
    }
}

/// A method that may influence a mint never rests on a single provider:
/// it is sent to every provider and reconciled.
pub proof fn lemma_single_answer_only_when_sequential(m: EthRpcMethod)
    ensures
        m.spec_dispatch() == Dispatch::Parallel <==> m.spec_reduction() != Reduction::SingleAnswer,
{
}

} // verus!
