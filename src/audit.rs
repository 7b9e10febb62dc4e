//! State modifications that are recorded in the event log: each records its
//! event, then applies the change.

use vstd::prelude::*;
use candid::Principal;
use crate::minter_state::{
    block_indices, confirmed, copy_utxos, owed_to, CkBtcMinterState, Event, FinalizedBtcRetrieval,
    FinalizedStatus, RetrieveBtcRequest, SubmittedBtcTransaction,
};

verus! {

/// Accepts a retrieval request: logs it, queues it, and charges the KYT fee
/// to the provider that checked it.
pub fn accept_retrieve_btc_request(state: &mut CkBtcMinterState, request: RetrieveBtcRequest)
    requires
        old(state).wf(),
        request.kyt_provider matches Some(p) ==> owed_to(old(state).spec_owed(), p) + old(state).spec_kyt_fee() <= u64::MAX,
    ensures
        final(state).wf(),
        final(state).spec_events() == old(state).spec_events().push(Event::AcceptedRetrieveBtcRequest(request)),
        final(state).spec_pending() == old(state).spec_pending().push(request),
        final(state).spec_finalized() == old(state).spec_finalized(),
        final(state).spec_kyt_fee() == old(state).spec_kyt_fee(),
        final(state).spec_owed() == match request.kyt_provider {
            Some(p) => old(state).spec_owed().insert(
                p,
                (owed_to(old(state).spec_owed(), p) + old(state).spec_kyt_fee()) as u64,
            ),
            None => old(state).spec_owed(),
        },
{
    state.record_event(Event::AcceptedRetrieveBtcRequest(request.duplicate()));
    let kyt_provider = request.kyt_provider;
    state.push_pending_request(request);
    if let Some(kyt_provider) = kyt_provider {
        state.charge_kyt_fee(kyt_provider);
    }
}

/// Drops a retrieval request whose amount does not cover the fees: logs it
/// and finalizes it as too low.
pub fn remove_retrieve_btc_request(state: &mut CkBtcMinterState, request: RetrieveBtcRequest)
    ensures
        final(state).wf() == old(state).wf(),
        final(state).spec_events() == old(state).spec_events().push(
            Event::RemovedRetrieveBtcRequest { block_index: request.block_index },
        ),
        final(state).spec_finalized() == old(state).spec_finalized().push(
            FinalizedBtcRetrieval { request, state: FinalizedStatus::AmountTooLow },
        ),
        final(state).spec_pending() == old(state).spec_pending(),
        final(state).spec_owed() == old(state).spec_owed(),
        final(state).spec_kyt_fee() == old(state).spec_kyt_fee(),
{
    state.record_event(Event::RemovedRetrieveBtcRequest { block_index: request.block_index });
    state.push_finalized_request(
        FinalizedBtcRetrieval { request, state: FinalizedStatus::AmountTooLow },
    );
}

/// Records a transaction sent to the bitcoin network: logs it, with the
/// block indices of the requests that it pays, and keeps it until it is
/// confirmed.
pub fn sent_transaction(state: &mut CkBtcMinterState, tx: SubmittedBtcTransaction)
    ensures
        final(state).wf() == old(state).wf(),
        final(state).spec_events().len() == old(state).spec_events().len() + 1,
        final(state).spec_events().drop_last() == old(state).spec_events(),
        final(state).spec_events().last() matches Event::SentBtcTransaction {
            request_block_indices,
            txid,
            utxos,
            change_output,
            submitted_at,
        } && request_block_indices@ == block_indices(tx.requests@) && txid == tx.txid
            && utxos@ == tx.used_utxos@ && change_output == tx.change_output
            && submitted_at == tx.submitted_at,
        final(state).spec_submitted() == old(state).spec_submitted().push(tx),
        final(state).spec_pending() == old(state).spec_pending(),
        final(state).spec_finalized() == old(state).spec_finalized(),
        final(state).spec_owed() == old(state).spec_owed(),
        final(state).spec_kyt_fee() == old(state).spec_kyt_fee(),
{
    let mut request_block_indices: Vec<u64> = Vec::new();
    let mut i: usize = 0;
    while i < tx.requests.len()
        invariant
            i <= tx.requests@.len(),
            request_block_indices@ == block_indices(tx.requests@.subrange(0, i as int)),
        decreases tx.requests@.len() - i,
    {
        request_block_indices.push(tx.requests[i].block_index);
        i += 1;
        proof {
            assert(request_block_indices@ =~= block_indices(tx.requests@.subrange(0, i as int)));
        }
    }
    proof {
        assert(tx.requests@.subrange(0, tx.requests@.len() as int) =~= tx.requests@);
    }
    state.record_event(
        Event::SentBtcTransaction {
            request_block_indices,
            txid: tx.txid,
            utxos: copy_utxos(&tx.used_utxos),
            change_output: tx.change_output,
            submitted_at: tx.submitted_at,
        },
    );
    state.push_submitted_transaction(tx);
}

/// Records that transaction `txid` was confirmed: logs it, and finalizes
/// the requests that it pays.
pub fn confirm_transaction(state: &mut CkBtcMinterState, txid: &[u8; 32])
    requires
        exists|i: int| 0 <= i < old(state).spec_submitted().len() && (#[trigger] old(state).spec_submitted()[i]).txid@ == txid@,
    ensures
        final(state).wf() == old(state).wf(),
        final(state).spec_events() == old(state).spec_events().push(Event::ConfirmedBtcTransaction { txid: *txid }),
        exists|i: int| {
            &&& 0 <= i < old(state).spec_submitted().len()
            &&& (#[trigger] old(state).spec_submitted()[i]).txid@ == txid@
            &&& forall|j: int| 0 <= j < i ==> old(state).spec_submitted()[j].txid@ != txid@
            &&& final(state).spec_submitted() == old(state).spec_submitted().remove(i)
            &&& final(state).spec_finalized() == old(state).spec_finalized() + confirmed(
                old(state).spec_submitted()[i].requests@,
                *txid,
            )
        },
        final(state).spec_pending() == old(state).spec_pending(),
        final(state).spec_owed() == old(state).spec_owed(),
        final(state).spec_kyt_fee() == old(state).spec_kyt_fee(),
{
    state.record_event(Event::ConfirmedBtcTransaction { txid: *txid });
    state.finalize_transaction(txid);
}

/// Records that the KYT check of a retrieval failed: logs it, and charges
/// the KYT fee to the provider that ran the check.
pub fn retrieve_btc_kyt_failed(
    state: &mut CkBtcMinterState,
    owner: Principal,
    address: String,
    amount: u64,
    kyt_provider: Principal,
    uuid: String,
    block_index: u64,
)
    requires
        old(state).wf(),
        owed_to(old(state).spec_owed(), kyt_provider) + old(state).spec_kyt_fee() <= u64::MAX,
    ensures
        final(state).wf(),
        final(state).spec_events() == old(state).spec_events().push(
            Event::RetrieveBtcKytFailed { owner, address, amount, kyt_provider, uuid, block_index },
        ),
        final(state).spec_owed() == old(state).spec_owed().insert(
            kyt_provider,
            (owed_to(old(state).spec_owed(), kyt_provider) + old(state).spec_kyt_fee()) as u64,
        ),
        final(state).spec_pending() == old(state).spec_pending(),
        final(state).spec_finalized() == old(state).spec_finalized(),
        final(state).spec_submitted() == old(state).spec_submitted(),
        final(state).spec_kyt_fee() == old(state).spec_kyt_fee(),
{
    state.record_event(
        Event::RetrieveBtcKytFailed { owner, address, amount, kyt_provider, uuid, block_index },
    );
    state.charge_kyt_fee(kyt_provider);
}

} // verus!
