use cketh_minter::eth_rpc::{HttpOutcallError, HttpOutcallResult, JsonRpcResult, RejectionCode};
use cketh_minter::eth_rpc_client::{MultiCallError, MultiCallResults};
use cketh_minter::providers::{EthereumProvider, RpcNodeProvider, SepoliaProvider};

const ANKR: RpcNodeProvider = RpcNodeProvider::Ethereum(EthereumProvider::Ankr);
const PUBLIC_NODE: RpcNodeProvider = RpcNodeProvider::Ethereum(EthereumProvider::PublicNode);
const CLOUDFLARE: RpcNodeProvider = RpcNodeProvider::Ethereum(EthereumProvider::Cloudflare);

fn ok<T>(value: T) -> HttpOutcallResult<JsonRpcResult<T>> {
    Ok(JsonRpcResult::Result(value))
}

fn json_rpc_error<T>(code: i64, message: &str) -> HttpOutcallResult<JsonRpcResult<T>> {
    Ok(JsonRpcResult::Error { code, message: message.to_string() })
}

fn timeout() -> HttpOutcallError {
    HttpOutcallError::IcError {
        code: RejectionCode::SysTransient,
        message: "Timeout expired".to_string(),
    }
}

fn results<T>(entries: Vec<(RpcNodeProvider, HttpOutcallResult<JsonRpcResult<T>>)>) -> MultiCallResults<T> {
    MultiCallResults::from_non_empty_iter(entries)
}

#[test]
fn should_agree_when_all_providers_return_same_value() {
    let r = results(vec![(ANKR, ok(7u64)), (PUBLIC_NODE, ok(7u64)), (CLOUDFLARE, ok(7u64))]);
    assert_eq!(r.reduce_with_equality(), Ok(7u64));
}

#[test]
fn should_agree_with_single_provider() {
    let r = results(vec![(PUBLIC_NODE, ok(vec![1u8, 2, 3]))]);
    assert_eq!(r.reduce_with_equality(), Ok(vec![1u8, 2, 3]));
}

#[test]
fn should_report_every_differing_value_with_the_base() {
    let r = results(vec![(ANKR, ok(1u64)), (PUBLIC_NODE, ok(2u64)), (CLOUDFLARE, ok(1u64))]);
    assert_eq!(
        r.reduce_with_equality(),
        Err(MultiCallError::InconsistentResults(results(vec![
            (ANKR, ok(1u64)),
            (PUBLIC_NODE, ok(2u64)),
        ])))
    );
}

#[test]
fn should_report_all_providers_when_all_values_differ() {
    let r = results(vec![(CLOUDFLARE, ok(3u64)), (ANKR, ok(1u64)), (PUBLIC_NODE, ok(2u64))]);
    assert_eq!(
        r.reduce_with_equality(),
        Err(MultiCallError::InconsistentResults(results(vec![
            (ANKR, ok(1u64)),
            (PUBLIC_NODE, ok(2u64)),
            (CLOUDFLARE, ok(3u64)),
        ])))
    );
}

#[test]
fn should_keep_evidence_between_two_and_all_providers() {
    let r = results(vec![(ANKR, ok(1u64)), (PUBLIC_NODE, ok(1u64)), (CLOUDFLARE, ok(9u64))]);
    let expected = results(vec![(ANKR, ok(1u64)), (CLOUDFLARE, ok(9u64))]);
    assert_eq!(r.reduce_with_equality(), Err(MultiCallError::InconsistentResults(expected)));
}

#[test]
fn should_report_consistent_json_rpc_error() {
    let r: MultiCallResults<u64> = results(vec![
        (ANKR, json_rpc_error(-32000, "x")),
        (PUBLIC_NODE, json_rpc_error(-32000, "x")),
    ]);
    assert_eq!(
        r.reduce_with_equality(),
        Err(MultiCallError::ConsistentJsonRpcError { code: -32000, message: "x".to_string() })
    );
}

#[test]
fn should_report_consistent_json_rpc_error_despite_successes() {
    let r: MultiCallResults<u64> = results(vec![
        (ANKR, ok(5)),
        (PUBLIC_NODE, json_rpc_error(-32000, "x")),
        (CLOUDFLARE, json_rpc_error(-32000, "x")),
    ]);
    assert_eq!(
        r.reduce_with_equality(),
        Err(MultiCallError::ConsistentJsonRpcError { code: -32000, message: "x".to_string() })
    );
}

#[test]
fn should_report_consistent_http_outcall_error() {
    let r: MultiCallResults<u64> = results(vec![(ANKR, Err(timeout())), (CLOUDFLARE, Err(timeout()))]);
    assert_eq!(r.reduce_with_equality(), Err(MultiCallError::ConsistentHttpOutcallError(timeout())));
}

#[test]
fn should_not_merge_json_rpc_error_and_transport_failure() {
    let r: MultiCallResults<u64> = results(vec![
        (ANKR, json_rpc_error(-32000, "x")),
        (PUBLIC_NODE, Err(timeout())),
    ]);
    assert_eq!(
        r.reduce_with_equality(),
        Err(MultiCallError::InconsistentResults(results(vec![
            (ANKR, json_rpc_error(-32000, "x")),
            (PUBLIC_NODE, Err(timeout())),
        ])))
    );
}

#[test]
fn should_not_merge_json_rpc_errors_with_different_messages() {
    let r: MultiCallResults<u64> = results(vec![
        (ANKR, json_rpc_error(-32000, "x")),
        (PUBLIC_NODE, json_rpc_error(-32000, "y")),
    ]);
    assert!(matches!(r.reduce_with_equality(), Err(MultiCallError::InconsistentResults(_))));
}

#[test]
fn should_keep_only_first_error_and_first_conflict_as_evidence() {
    let r: MultiCallResults<u64> = results(vec![
        (ANKR, json_rpc_error(-32000, "x")),
        (PUBLIC_NODE, json_rpc_error(-32000, "x")),
        (CLOUDFLARE, json_rpc_error(-32601, "method not found")),
    ]);
    assert_eq!(
        r.reduce_with_equality(),
        Err(MultiCallError::InconsistentResults(results(vec![
            (ANKR, json_rpc_error(-32000, "x")),
            (CLOUDFLARE, json_rpc_error(-32601, "method not found")),
        ])))
    );
}

#[test]
fn should_distinguish_invalid_responses_by_status() {
    let invalid = |status: u16| -> HttpOutcallResult<JsonRpcResult<u64>> {
        Err(HttpOutcallError::InvalidHttpJsonRpcResponse {
            status,
            body: "".to_string(),
            parsing_error: None,
        })
    };
    let r = results(vec![(ANKR, invalid(500)), (PUBLIC_NODE, invalid(502))]);
    assert!(matches!(r.reduce_with_equality(), Err(MultiCallError::InconsistentResults(_))));
    let r = results(vec![(ANKR, invalid(500)), (PUBLIC_NODE, invalid(500))]);
    assert_eq!(
        r.reduce_with_equality(),
        Err(MultiCallError::ConsistentHttpOutcallError(HttpOutcallError::InvalidHttpJsonRpcResponse {
            status: 500,
            body: "".to_string(),
            parsing_error: None,
        }))
    );
}

#[test]
fn should_select_minimum_key_in_any_provider_order() {
    let orders = [[5u64, 3, 9], [3, 5, 9], [9, 5, 3], [9, 3, 5], [5, 9, 3], [3, 9, 5]];
    for order in orders {
        let r = results(vec![
            (ANKR, ok(order[0])),
            (PUBLIC_NODE, ok(order[1])),
            (CLOUDFLARE, ok(order[2])),
        ]);
        assert_eq!(r.reduce_with_min_by_key(|count: &u64| *count), Ok(3));
    }
}

#[test]
fn should_select_minimum_by_derived_key() {
    let r = results(vec![
        (ANKR, ok((10u64, "a"))),
        (PUBLIC_NODE, ok((2u64, "b"))),
        (CLOUDFLARE, ok((7u64, "c"))),
    ]);
    assert_eq!(r.reduce_with_min_by_key(|v: &(u64, &str)| v.0), Ok((2u64, "b")));
}

#[test]
fn should_break_minimum_ties_by_provider_order() {
    let r = results(vec![
        (CLOUDFLARE, ok((1u64, "cloudflare"))),
        (PUBLIC_NODE, ok((1u64, "public node"))),
        (ANKR, ok((4u64, "ankr"))),
    ]);
    assert_eq!(r.reduce_with_min_by_key(|v: &(u64, &str)| v.0), Ok((1u64, "public node")));
}

#[test]
fn should_not_select_minimum_when_a_provider_failed() {
    let r = results(vec![(ANKR, ok(1u64)), (PUBLIC_NODE, Err(timeout()))]);
    assert_eq!(
        r.reduce_with_min_by_key(|count: &u64| *count),
        Err(MultiCallError::ConsistentHttpOutcallError(timeout()))
    );
}

#[test]
fn should_build_same_outcome_set_in_any_order() {
    let a = results(vec![(ANKR, ok(1u64)), (PUBLIC_NODE, ok(2u64)), (CLOUDFLARE, Err(timeout()))]);
    let b = results(vec![(CLOUDFLARE, Err(timeout())), (ANKR, ok(1u64)), (PUBLIC_NODE, ok(2u64))]);
    assert_eq!(a, b);
    let a = results(vec![(ANKR, ok(1u64)), (PUBLIC_NODE, ok(2u64)), (CLOUDFLARE, Err(timeout()))]);
    let b = results(vec![(CLOUDFLARE, Err(timeout())), (PUBLIC_NODE, ok(2u64)), (ANKR, ok(1u64))]);
    assert_eq!(a.reduce_with_equality(), b.reduce_with_equality());
}

#[test]
fn should_keep_last_outcome_of_repeated_provider() {
    let r = results(vec![(ANKR, ok(1u64)), (PUBLIC_NODE, ok(2u64)), (ANKR, ok(2u64))]);
    assert_eq!(r, results(vec![(PUBLIC_NODE, ok(2u64)), (ANKR, ok(2u64))]));
    assert_eq!(r.reduce_with_equality(), Ok(2));
}

#[test]
fn should_order_providers_across_networks() {
    let sepolia = RpcNodeProvider::Sepolia(SepoliaProvider::Ankr);
    let r = results(vec![(sepolia, ok(1u64)), (CLOUDFLARE, ok(1u64))]);
    assert_eq!(r, results(vec![(CLOUDFLARE, ok(1u64)), (sepolia, ok(1u64))]));
    assert!(ANKR.rank() < CLOUDFLARE.rank() && CLOUDFLARE.rank() < sepolia.rank());
    assert!(ANKR < CLOUDFLARE && CLOUDFLARE < sepolia);
}
