use candid::Principal;
use cketh_minter::audit::{
    accept_retrieve_btc_request, confirm_transaction, remove_retrieve_btc_request,
    retrieve_btc_kyt_failed, sent_transaction,
};
use cketh_minter::embedders::{FeatureFlags, FlagStatus};
use cketh_minter::metrics::RequestContext;
use cketh_minter::minter_state::{
    ChangeOutput, CkBtcMinterState, Event, FinalizedBtcRetrieval, FinalizedStatus, OutPoint,
    RetrieveBtcRequest, SubmittedBtcTransaction, Utxo,
};

fn request(block_index: u64, kyt_provider: Option<Principal>) -> RetrieveBtcRequest {
    RetrieveBtcRequest {
        amount: 100_000,
        address: "bc1qar0srrr7xfkvy5l643lydnw9re59gtzzwf5mdq".to_string(),
        block_index,
        received_at: 1_700_000_000,
        kyt_provider,
    }
}

#[test]
fn should_log_accepted_request_and_charge_kyt_fee() {
    let provider = Principal::from_slice(&[1, 2, 3]);
    let other = Principal::from_slice(&[4, 5]);
    let mut state = CkBtcMinterState::new(1_000);
    accept_retrieve_btc_request(&mut state, request(1, Some(provider)));
    accept_retrieve_btc_request(&mut state, request(2, Some(provider)));
    accept_retrieve_btc_request(&mut state, request(3, None));
    assert_eq!(state.owed_kyt_amount(&provider), 2_000);
    assert_eq!(state.owed_kyt_amount(&other), 0);
    assert_eq!(
        state.pending_retrieve_btc_requests(),
        &vec![request(1, Some(provider)), request(2, Some(provider)), request(3, None)]
    );
    assert_eq!(state.events()[2], Event::AcceptedRetrieveBtcRequest(request(3, None)));
    assert_eq!(state.events().len(), 3);
}

#[test]
fn should_log_removed_request_as_amount_too_low() {
    let mut state = CkBtcMinterState::new(1_000);
    remove_retrieve_btc_request(&mut state, request(7, None));
    assert_eq!(state.events(), &vec![Event::RemovedRetrieveBtcRequest { block_index: 7 }]);
    assert_eq!(
        state.finalized_requests(),
        &vec![FinalizedBtcRetrieval { request: request(7, None), state: FinalizedStatus::AmountTooLow }]
    );
    assert!(state.pending_retrieve_btc_requests().is_empty());
}

fn utxo(txid_byte: u8, value: u64) -> Utxo {
    Utxo { outpoint: OutPoint { txid: [txid_byte; 32], vout: 1 }, value, height: 800_000 }
}

fn transaction(txid_byte: u8, block_indices: &[u64]) -> SubmittedBtcTransaction {
    SubmittedBtcTransaction {
        requests: block_indices.iter().map(|i| request(*i, None)).collect(),
        txid: [txid_byte; 32],
        used_utxos: vec![utxo(9, 500_000)],
        change_output: Some(ChangeOutput { vout: 2, value: 1_000 }),
        submitted_at: 1_700_000_100,
    }
}

#[test]
fn should_log_sent_transaction_with_request_block_indices() {
    let mut state = CkBtcMinterState::new(0);
    sent_transaction(&mut state, transaction(7, &[3, 5]));
    assert_eq!(
        state.events(),
        &vec![Event::SentBtcTransaction {
            request_block_indices: vec![3, 5],
            txid: [7; 32],
            utxos: vec![utxo(9, 500_000)],
            change_output: Some(ChangeOutput { vout: 2, value: 1_000 }),
            submitted_at: 1_700_000_100,
        }]
    );
    assert_eq!(state.submitted_transactions(), &vec![transaction(7, &[3, 5])]);
}

#[test]
fn should_finalize_requests_of_confirmed_transaction() {
    let mut state = CkBtcMinterState::new(0);
    sent_transaction(&mut state, transaction(1, &[10]));
    sent_transaction(&mut state, transaction(2, &[20, 21]));
    confirm_transaction(&mut state, &[2; 32]);
    assert_eq!(state.events().last(), Some(&Event::ConfirmedBtcTransaction { txid: [2; 32] }));
    assert_eq!(state.submitted_transactions(), &vec![transaction(1, &[10])]);
    assert_eq!(
        state.finalized_requests(),
        &vec![
            FinalizedBtcRetrieval {
                request: request(20, None),
                state: FinalizedStatus::Confirmed { txid: [2; 32] },
            },
            FinalizedBtcRetrieval {
                request: request(21, None),
                state: FinalizedStatus::Confirmed { txid: [2; 32] },
            },
        ]
    );
}

#[test]
fn should_default_feature_flags() {
    assert_eq!(
        FeatureFlags::default(),
        FeatureFlags {
            rate_limiting_of_debug_prints: FlagStatus::Enabled,
            write_barrier: FlagStatus::Disabled,
            wasm_native_stable_memory: FlagStatus::Disabled,
        }
    );
}

#[test]
fn should_default_request_context() {
    assert_eq!(
        RequestContext::default(),
        RequestContext { request_size: 0, streaming_request: false }
    );
}

#[test]
fn should_log_kyt_failure_and_charge_provider() {
    let provider = Principal::from_slice(&[7, 7]);
    let owner = Principal::from_slice(&[1]);
    let mut state = CkBtcMinterState::new(500);
    accept_retrieve_btc_request(&mut state, request(1, Some(provider)));
    retrieve_btc_kyt_failed(
        &mut state,
        owner,
        "bc1qxy2kgdygjrsqtzq2n0yrf2493p83kkfjhx0wlh".to_string(),
        20_000,
        provider,
        "uuid-1".to_string(),
        2,
    );
    assert_eq!(state.owed_kyt_amount(&provider), 1_000);
    assert_eq!(
        state.events().last(),
        Some(&Event::RetrieveBtcKytFailed {
            owner,
            address: "bc1qxy2kgdygjrsqtzq2n0yrf2493p83kkfjhx0wlh".to_string(),
            amount: 20_000,
            kyt_provider: provider,
            uuid: "uuid-1".to_string(),
            block_index: 2,
        })
    );
    assert_eq!(state.pending_retrieve_btc_requests().len(), 1);
}
