use cketh_minter::dispatch::SequentialCallUntilOk;
use cketh_minter::eth_rpc::{
    are_errors_consistent, HttpOutcallError, HttpOutcallResult, JsonRpcResult, RejectionCode,
    ResponseSizeEstimate,
};
use cketh_minter::eth_rpc_client::{EthRpcClient, MultiCallResults};
use cketh_minter::providers::{EthereumNetwork, EthereumProvider, RpcNodeProvider, SepoliaProvider};
use cketh_minter::requests::{Dispatch, EthRpcMethod, Reduction};
use cketh_minter::state::State;

fn transport_failure(message: &str) -> HttpOutcallError {
    HttpOutcallError::IcError { code: RejectionCode::SysTransient, message: message.to_string() }
}

#[test]
fn should_list_mainnet_providers_in_order() {
    let client = EthRpcClient::from_state(&State::new(EthereumNetwork::Mainnet));
    assert_eq!(
        client.providers(),
        vec![
            RpcNodeProvider::Ethereum(EthereumProvider::Ankr),
            RpcNodeProvider::Ethereum(EthereumProvider::PublicNode),
            RpcNodeProvider::Ethereum(EthereumProvider::Cloudflare),
        ]
    );
}

#[test]
fn should_list_sepolia_providers_in_order() {
    let client = EthRpcClient::from_state(&State::new(EthereumNetwork::Sepolia));
    assert_eq!(
        client.providers(),
        vec![
            RpcNodeProvider::Sepolia(SepoliaProvider::Ankr),
            RpcNodeProvider::Sepolia(SepoliaProvider::PublicNode),
        ]
    );
    assert_eq!(client.providers()[0].url(), "https://rpc.ankr.com/eth_sepolia");
}

#[test]
fn should_return_first_answer_without_asking_later_providers() {
    let client = EthRpcClient::from_state(&State::new(EthereumNetwork::Mainnet));
    let mut call: SequentialCallUntilOk<u64> = client.sequential_call_until_ok();
    let mut asked = Vec::new();
    let outcomes: Vec<HttpOutcallResult<JsonRpcResult<u64>>> = vec![
        Err(transport_failure("connection refused")),
        Ok(JsonRpcResult::Error { code: -32000, message: "nonce too low".to_string() }),
        Ok(JsonRpcResult::Result(1)),
    ];
    let mut outcomes = outcomes.into_iter();
    while let Some(provider) = call.next_provider() {
        asked.push(provider);
        call.record(outcomes.next().unwrap());
    }
    assert_eq!(
        asked,
        vec![
            RpcNodeProvider::Ethereum(EthereumProvider::Ankr),
            RpcNodeProvider::Ethereum(EthereumProvider::PublicNode),
        ]
    );
    assert_eq!(
        call.into_result(),
        Ok(JsonRpcResult::Error { code: -32000, message: "nonce too low".to_string() })
    );
}

#[test]
fn should_return_last_transport_failure_when_no_provider_answers() {
    let client = EthRpcClient::from_state(&State::new(EthereumNetwork::Sepolia));
    let mut call: SequentialCallUntilOk<u64> = client.sequential_call_until_ok();
    let mut count = 0;
    while let Some(_provider) = call.next_provider() {
        count += 1;
        call.record(Err(transport_failure(&format!("failure {}", count))));
    }
    assert_eq!(count, 2);
    assert_eq!(call.into_result(), Err(transport_failure("failure 2")));
}

#[test]
fn should_stop_at_first_success() {
    let mut call: SequentialCallUntilOk<u64> =
        SequentialCallUntilOk::new(vec![RpcNodeProvider::Ethereum(EthereumProvider::Cloudflare)]);
    assert_eq!(call.next_provider(), Some(RpcNodeProvider::Ethereum(EthereumProvider::Cloudflare)));
    call.record(Ok(JsonRpcResult::Result(42)));
    assert_eq!(call.next_provider(), None);
    assert_eq!(call.into_result(), Ok(JsonRpcResult::Result(42)));
}

#[test]
fn should_pair_parallel_results_with_providers() {
    let client = EthRpcClient::from_state(&State::new(EthereumNetwork::Mainnet));
    let r = client.parallel_call_results(vec![
        Ok(JsonRpcResult::Result(1u64)),
        Err(transport_failure("down")),
        Ok(JsonRpcResult::Result(3u64)),
    ]);
    assert_eq!(
        r,
        MultiCallResults::from_non_empty_iter(vec![
            (RpcNodeProvider::Ethereum(EthereumProvider::Cloudflare), Ok(JsonRpcResult::Result(3u64))),
            (RpcNodeProvider::Ethereum(EthereumProvider::Ankr), Ok(JsonRpcResult::Result(1u64))),
            (RpcNodeProvider::Ethereum(EthereumProvider::PublicNode), Err(transport_failure("down"))),
        ])
    );
}

#[test]
fn should_bind_methods_to_dispatch_and_reduction() {
    assert_eq!(EthRpcMethod::GetLogs.name(), "eth_getLogs");
    assert_eq!(EthRpcMethod::GetLogs.response_size_estimate().get(), 100);
    assert_eq!(EthRpcMethod::GetBlockByNumber.name(), "eth_getBlockByNumber");
    assert_eq!(EthRpcMethod::GetBlockByNumber.response_size_estimate().get(), 6 * 1024);
    assert_eq!(EthRpcMethod::GetTransactionByHash.response_size_estimate().get(), 1200);
    assert_eq!(EthRpcMethod::GetTransactionReceipt.response_size_estimate().get(), 700);
    assert_eq!(EthRpcMethod::FeeHistory.name(), "eth_feeHistory");
    assert_eq!(EthRpcMethod::FeeHistory.response_size_estimate().get(), 512);
    assert_eq!(EthRpcMethod::FeeHistory.dispatch(), Dispatch::SequentialUntilOk);
    assert_eq!(EthRpcMethod::FeeHistory.reduction(), Reduction::SingleAnswer);
    assert_eq!(EthRpcMethod::SendRawTransaction.name(), "eth_sendRawTransaction");
    assert_eq!(EthRpcMethod::SendRawTransaction.response_size_estimate().get(), 256);
    assert_eq!(EthRpcMethod::SendRawTransaction.dispatch(), Dispatch::SequentialUntilOk);
    assert_eq!(EthRpcMethod::GetTransactionCount.name(), "eth_getTransactionCount");
    assert_eq!(EthRpcMethod::GetTransactionCount.response_size_estimate().get(), 50);
    assert_eq!(EthRpcMethod::GetTransactionCount.dispatch(), Dispatch::Parallel);
    assert_eq!(EthRpcMethod::GetTransactionCount.reduction(), Reduction::MinByKey);
    assert_eq!(EthRpcMethod::GetTransactionReceipt.dispatch(), Dispatch::Parallel);
    assert_eq!(EthRpcMethod::GetTransactionReceipt.reduction(), Reduction::Equality);
    assert_eq!(ResponseSizeEstimate::new(9).get(), 9);
}

#[test]
fn should_compare_errors_by_kind_and_content() {
    let a: HttpOutcallResult<JsonRpcResult<u64>> =
        Ok(JsonRpcResult::Error { code: -32000, message: "x".to_string() });
    let b: HttpOutcallResult<JsonRpcResult<u64>> =
        Ok(JsonRpcResult::Error { code: -32000, message: "x".to_string() });
    let c: HttpOutcallResult<JsonRpcResult<u64>> = Err(transport_failure("x"));
    let d: HttpOutcallResult<JsonRpcResult<u64>> = Ok(JsonRpcResult::Result(1));
    assert!(are_errors_consistent(&a, &b));
    assert!(!are_errors_consistent(&a, &c));
    assert!(are_errors_consistent(&c, &c));
    assert!(!are_errors_consistent(&d, &d));
}
