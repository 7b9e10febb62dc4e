//! The part of the ckBTC minter's state that retrieval requests touch, and
//! the events that record its changes.

use vstd::prelude::*;
use candid::Principal;
use crate::outcome_map::{entries_map, keys_unique, lemma_entries_map_unique};

verus! {

#[verifier::external_type_specification]
#[verifier::external_body]
pub struct ExPrincipal(candid::Principal);

/// Relies on the `PartialEq` that `candid::Principal` derives over its
/// length and bytes: two principals compare equal exactly when they are
/// the same value.
pub assume_specification[ <candid::Principal as core::cmp::PartialEq>::eq ](
    a: &candid::Principal,
    b: &candid::Principal,
) -> (r: bool)
    ensures
        r == (*a == *b),
;

/// A request to retrieve bitcoin, accepted once its burn was recorded.
#[derive(Clone, Debug, PartialEq, Eq)]
pub struct RetrieveBtcRequest {
    /// The amount to convert to BTC, in satoshi.
    pub amount: u64,
    /// The destination BTC address.
    pub address: String,
    /// The index of the ledger block that burned the ckBTC.
    pub block_index: u64,
    /// The time at which the minter accepted the request.
    pub received_at: u64,
    /// The KYT provider that checked the request, if any.
    pub kyt_provider: Option<Principal>,
}

impl RetrieveBtcRequest {
    /// A copy of the request.
    pub fn duplicate(&self) -> (r: Self)
        ensures
            r == *self,
    {
        RetrieveBtcRequest {
            amount: self.amount,
            address: self.address.clone(),
            block_index: self.block_index,
            received_at: self.received_at,
            kyt_provider: self.kyt_provider,
        }
    }
}

/// How a retrieval request ended.
#[derive(Clone, Copy, Debug, PartialEq, Eq)]
pub enum FinalizedStatus {
    /// The amount did not cover the fees.
    AmountTooLow,
    /// The transaction that paid the request was confirmed.
    Confirmed { txid: [u8; 32] },
}

/// A retrieval request that was taken out of processing.
#[derive(Clone, Debug, PartialEq, Eq)]
pub struct FinalizedBtcRetrieval {
    pub request: RetrieveBtcRequest,
    pub state: FinalizedStatus,
}

/// A reference to an output of a bitcoin transaction.
#[derive(Clone, Copy, Debug, PartialEq, Eq)]
pub struct OutPoint {
    pub txid: [u8; 32],
    pub vout: u32,
}

/// An unspent transaction output.
#[derive(Clone, Copy, Debug, PartialEq, Eq)]
pub struct Utxo {
    pub outpoint: OutPoint,
    pub value: u64,
    pub height: u32,
}

/// The output of a transaction that returns the change to the minter.
#[derive(Clone, Copy, Debug, PartialEq, Eq, Structural)]
pub struct ChangeOutput {
    pub vout: u32,
    pub value: u64,
}

/// A transaction that pays retrieval requests, sent to the bitcoin network.
#[derive(Clone, Debug, PartialEq, Eq)]
pub struct SubmittedBtcTransaction {
    /// The requests that the transaction pays.
    pub requests: Vec<RetrieveBtcRequest>,
    pub txid: [u8; 32],
    /// The outputs that the transaction spends.
    pub used_utxos: Vec<Utxo>,
    pub change_output: Option<ChangeOutput>,
    /// The time at which the minter sent the transaction.
    pub submitted_at: u64,
}

/// A change of the minter's state, as the event log records it.
#[derive(Debug, PartialEq, Eq)]
pub enum Event {
    AcceptedRetrieveBtcRequest(RetrieveBtcRequest),
    RemovedRetrieveBtcRequest { block_index: u64 },
    SentBtcTransaction {
        request_block_indices: Vec<u64>,
        txid: [u8; 32],
        utxos: Vec<Utxo>,
        change_output: Option<ChangeOutput>,
        submitted_at: u64,
    },
    ConfirmedBtcTransaction { txid: [u8; 32] },
    RetrieveBtcKytFailed {
        owner: Principal,
        address: String,
        amount: u64,
        kyt_provider: Principal,
        uuid: String,
        block_index: u64,
    },
}

/// The block indices of the requests, in order.
pub open spec fn block_indices(requests: Seq<RetrieveBtcRequest>) -> Seq<u64> {
    requests.map_values(|r: RetrieveBtcRequest| r.block_index)
}

/// Requests finalized as paid by transaction `txid`, in order.
pub open spec fn confirmed(requests: Seq<RetrieveBtcRequest>, txid: [u8; 32]) -> Seq<FinalizedBtcRetrieval> {
    requests.map_values(|r: RetrieveBtcRequest| FinalizedBtcRetrieval { request: r, state: FinalizedStatus::Confirmed { txid } })
}

/// A copy of the outputs.
pub fn copy_utxos(utxos: &Vec<Utxo>) -> (r: Vec<Utxo>)
    ensures
        r@ == utxos@,
{
    let mut r: Vec<Utxo> = Vec::new();
    let mut i: usize = 0;
    while i < utxos.len()
        invariant
            i <= utxos@.len(),
            r@ == utxos@.subrange(0, i as int),
        decreases utxos@.len() - i,
    {
        r.push(utxos[i]);
        i += 1;
        proof {
            assert(r@ =~= utxos@.subrange(0, i as int));
        }
    }
    proof {
        assert(r@ =~= utxos@);
    }
    r
}

/// Whether two transaction ids are the same.
pub fn same_txid(a: &[u8; 32], b: &[u8; 32]) -> (r: bool)
    ensures
        r == (a@ == b@),
{
    let mut i: usize = 0;
    while i < 32
        invariant
            i <= 32,
            a@.len() == 32,
            b@.len() == 32,
            forall|j: int| 0 <= j < i ==> a@[j] == b@[j],
        decreases 32 - i,
    {
        if a[i] != b[i] {
            return false;
        }
        i += 1;
    }
    proof {
        assert(a@ =~= b@);
    }
    true
}

/// The minter's state, as far as retrieval requests are concerned, with
/// the log of the events that changed it.
pub struct CkBtcMinterState {
    pending_retrieve_btc_requests: Vec<RetrieveBtcRequest>,
    finalized_requests: Vec<FinalizedBtcRetrieval>,
    submitted_transactions: Vec<SubmittedBtcTransaction>,
    owed_kyt_amount: Vec<(Principal, u64)>,
    kyt_fee: u64,
    events: Vec<Event>,
}

impl CkBtcMinterState {
    pub closed spec fn wf(&self) -> bool {
        keys_unique(self.owed_kyt_amount@)
    }

    pub closed spec fn spec_pending(&self) -> Seq<RetrieveBtcRequest> {
        self.pending_retrieve_btc_requests@
    }

    pub closed spec fn spec_finalized(&self) -> Seq<FinalizedBtcRetrieval> {
        self.finalized_requests@
    }

    pub closed spec fn spec_submitted(&self) -> Seq<SubmittedBtcTransaction> {
        self.submitted_transactions@
    }

    /// What is owed to each KYT provider.
    pub closed spec fn spec_owed(&self) -> Map<Principal, u64> {
        entries_map(self.owed_kyt_amount@)
    }

    pub closed spec fn spec_kyt_fee(&self) -> u64 {
        self.kyt_fee
    }

    pub closed spec fn spec_events(&self) -> Seq<Event> {
        self.events@
    }

    /// A state with no request, nothing owed and an empty log.
    pub fn new(kyt_fee: u64) -> (r: Self)
        ensures
            r.wf(),
            r.spec_pending().len() == 0,
            r.spec_finalized().len() == 0,
            r.spec_submitted().len() == 0,
            r.spec_owed() == Map::<Principal, u64>::empty(),
            r.spec_kyt_fee() == kyt_fee,
            r.spec_events().len() == 0,
    {
        let r = CkBtcMinterState {
            pending_retrieve_btc_requests: Vec::new(),
            finalized_requests: Vec::new(),
            submitted_transactions: Vec::new(),
            owed_kyt_amount: Vec::new(),
            kyt_fee,
            events: Vec::new(),
        };
        proof {
            assert(entries_map(r.owed_kyt_amount@) =~= Map::<Principal, u64>::empty());
        }
        r
    }

    /// Requests waiting to be paid, oldest first.
    pub fn pending_retrieve_btc_requests(&self) -> (r: &Vec<RetrieveBtcRequest>)
        ensures
            r@ == self.spec_pending(),
    {
        &self.pending_retrieve_btc_requests
    }

    /// Requests taken out of processing, oldest first.
    pub fn finalized_requests(&self) -> (r: &Vec<FinalizedBtcRetrieval>)
        ensures
            r@ == self.spec_finalized(),
    {
        &self.finalized_requests
    }

    /// The event log, oldest first.
    pub fn events(&self) -> (r: &Vec<Event>)
        ensures
            r@ == self.spec_events(),
    {
        &self.events
    }

    /// The amount owed to `provider`; zero when nothing is.
    pub fn owed_kyt_amount(&self, provider: &Principal) -> (r: u64)
        requires
            self.wf(),
        ensures
            r == owed_to(self.spec_owed(), *provider),
    {
        proof {
            lemma_entries_map_unique(self.owed_kyt_amount@);
        }
        match position_of(&self.owed_kyt_amount, provider) {
            Some(i) => {
                proof {
                    assert(entries_map(self.owed_kyt_amount@)[self.owed_kyt_amount@[i as int].0] == self.owed_kyt_amount@[i as int].1);
                }
                self.owed_kyt_amount[i].1
            },
            None => 0,
        }
    }

    /// Appends `event` to the log.
    pub fn record_event(&mut self, event: Event)
        ensures
            final(self).spec_events() == old(self).spec_events().push(event),
            final(self).spec_pending() == old(self).spec_pending(),
            final(self).spec_finalized() == old(self).spec_finalized(),
            final(self).spec_owed() == old(self).spec_owed(),
            final(self).spec_kyt_fee() == old(self).spec_kyt_fee(),
            final(self).spec_submitted() == old(self).spec_submitted(),
            final(self).wf() == old(self).wf(),
    {
        self.events.push(event);
    }

    /// Adds `request` to the requests waiting to be paid.
    pub fn push_pending_request(&mut self, request: RetrieveBtcRequest)
        ensures
            final(self).spec_pending() == old(self).spec_pending().push(request),
            final(self).spec_events() == old(self).spec_events(),
            final(self).spec_finalized() == old(self).spec_finalized(),
            final(self).spec_owed() == old(self).spec_owed(),
            final(self).spec_kyt_fee() == old(self).spec_kyt_fee(),
            final(self).spec_submitted() == old(self).spec_submitted(),
            final(self).wf() == old(self).wf(),
    {
        self.pending_retrieve_btc_requests.push(request);
    }

    /// Adds `request` to the requests taken out of processing.
    pub fn push_finalized_request(&mut self, request: FinalizedBtcRetrieval)
        ensures
            final(self).spec_finalized() == old(self).spec_finalized().push(request),
            final(self).spec_events() == old(self).spec_events(),
            final(self).spec_pending() == old(self).spec_pending(),
            final(self).spec_owed() == old(self).spec_owed(),
            final(self).spec_kyt_fee() == old(self).spec_kyt_fee(),
            final(self).spec_submitted() == old(self).spec_submitted(),
            final(self).wf() == old(self).wf(),
    {
        self.finalized_requests.push(request);
    }

    /// Transactions sent and not yet confirmed, oldest first.
    pub fn submitted_transactions(&self) -> (r: &Vec<SubmittedBtcTransaction>)
        ensures
            r@ == self.spec_submitted(),
    {
        &self.submitted_transactions
    }

    /// Adds `tx` to the transactions awaiting confirmation.
    pub fn push_submitted_transaction(&mut self, tx: SubmittedBtcTransaction)
        ensures
            final(self).spec_submitted() == old(self).spec_submitted().push(tx),
            final(self).spec_events() == old(self).spec_events(),
            final(self).spec_pending() == old(self).spec_pending(),
            final(self).spec_finalized() == old(self).spec_finalized(),
            final(self).spec_owed() == old(self).spec_owed(),
            final(self).spec_kyt_fee() == old(self).spec_kyt_fee(),
            final(self).wf() == old(self).wf(),
    {
        self.submitted_transactions.push(tx);
    }

    /// Takes the first transaction `txid` out of those awaiting
    /// confirmation, and finalizes the requests that it pays as confirmed.
    pub fn finalize_transaction(&mut self, txid: &[u8; 32])
        requires
            exists|i: int| 0 <= i < old(self).spec_submitted().len() && (#[trigger] old(self).spec_submitted()[i]).txid@ == txid@,
        ensures
            exists|i: int| {
                &&& 0 <= i < old(self).spec_submitted().len()
                &&& (#[trigger] old(self).spec_submitted()[i]).txid@ == txid@
                &&& forall|j: int| 0 <= j < i ==> old(self).spec_submitted()[j].txid@ != txid@
                &&& final(self).spec_submitted() == old(self).spec_submitted().remove(i)
                &&& final(self).spec_finalized() == old(self).spec_finalized() + confirmed(
                    old(self).spec_submitted()[i].requests@,
                    *txid,
                )
            },
            final(self).spec_events() == old(self).spec_events(),
            final(self).spec_pending() == old(self).spec_pending(),
            final(self).spec_owed() == old(self).spec_owed(),
            final(self).spec_kyt_fee() == old(self).spec_kyt_fee(),
            final(self).wf() == old(self).wf(),
    {
        let ghost old_submitted = self.submitted_transactions@;
        let ghost old_finalized = self.finalized_requests@;
        let mut pos: usize = 0;
        while pos < self.submitted_transactions.len() && !same_txid(&self.submitted_transactions[pos].txid, txid)
            invariant
                pos <= old_submitted.len(),
                self.submitted_transactions@ == old_submitted,
                self.finalized_requests@ == old_finalized,
                self.events@ == old(self).events@,
                self.pending_retrieve_btc_requests@ == old(self).pending_retrieve_btc_requests@,
                self.owed_kyt_amount@ == old(self).owed_kyt_amount@,
                self.kyt_fee == old(self).kyt_fee,
                old_submitted == old(self).submitted_transactions@,
                old_finalized == old(self).finalized_requests@,
                forall|j: int| 0 <= j < pos ==> (#[trigger] old_submitted[j]).txid@ != txid@,
                exists|i: int| 0 <= i < old_submitted.len() && (#[trigger] old_submitted[i]).txid@ == txid@,
            decreases old_submitted.len() - pos,
        {
            pos += 1;
        }
        if pos >= self.submitted_transactions.len() {
            proof {
                let i = choose|i: int| 0 <= i < old_submitted.len() && (#[trigger] old_submitted[i]).txid@ == txid@;
                assert(old_submitted[i].txid@ != txid@);
            }
            return;
        }
        let tx = self.submitted_transactions.remove(pos);
        let ghost requests = tx.requests@;
        let txid_copy: [u8; 32] = *txid;
        for request in it: tx.requests.into_iter()
            invariant
                it.seq() == requests,
                self.finalized_requests@ == old_finalized + confirmed(requests.subrange(0, it.index() as int), txid_copy),
                self.submitted_transactions@ == old_submitted.remove(pos as int),
                self.events@ == old(self).events@,
                self.pending_retrieve_btc_requests@ == old(self).pending_retrieve_btc_requests@,
                self.owed_kyt_amount@ == old(self).owed_kyt_amount@,
                self.kyt_fee == old(self).kyt_fee,
        {
            let ghost k = it.index();
            self.finalized_requests.push(
                FinalizedBtcRetrieval { request, state: FinalizedStatus::Confirmed { txid: txid_copy } },
            );
            proof {
                assert(confirmed(requests.subrange(0, k + 1), txid_copy) =~= confirmed(requests.subrange(0, k), txid_copy).push(
                    FinalizedBtcRetrieval { request: requests[k], state: FinalizedStatus::Confirmed { txid: txid_copy } },
                ));
                assert(self.finalized_requests@ =~= old_finalized + confirmed(requests.subrange(0, k + 1), txid_copy));
            }
        }
        proof {
            assert(requests.subrange(0, requests.len() as int) =~= requests);
            let i = pos as int;
            assert(old_submitted[i].txid@ == txid@);
            assert(old_submitted[i].requests@ == requests);
            assert(*txid == txid_copy);
        }
    }

    /// Charges the KYT fee to `provider`.
    pub fn charge_kyt_fee(&mut self, provider: Principal)
        requires
            old(self).wf(),
            owed_to(old(self).spec_owed(), provider) + old(self).spec_kyt_fee() <= u64::MAX,
        ensures
            final(self).wf(),
            final(self).spec_owed() == old(self).spec_owed().insert(
                provider,
                (owed_to(old(self).spec_owed(), provider) + old(self).spec_kyt_fee()) as u64,
            ),
            final(self).spec_events() == old(self).spec_events(),
            final(self).spec_pending() == old(self).spec_pending(),
            final(self).spec_finalized() == old(self).spec_finalized(),
            final(self).spec_kyt_fee() == old(self).spec_kyt_fee(),
            final(self).spec_submitted() == old(self).spec_submitted(),
    {
        let ghost old_s = self.owed_kyt_amount@;
        proof {
            lemma_entries_map_unique(old_s);
        }
        let fee = self.kyt_fee;
        match position_of(&self.owed_kyt_amount, &provider) {
            Some(i) => {
                let owed = self.owed_kyt_amount[i].1;
                proof {
                    assert(entries_map(old_s)[old_s[i as int].0] == old_s[i as int].1);
                }
                self.owed_kyt_amount.set(i, (provider, owed + fee));
                proof {
                    let s = self.owed_kyt_amount@;
                    assert(keys_unique(s));
                    lemma_entries_map_unique(s);
                    let expected = entries_map(old_s).insert(provider, (owed + fee) as u64);
                    assert forall|p: Principal| #[trigger] expected.contains_key(p) implies entries_map(s).contains_key(p) && entries_map(s)[p] == expected[p] by {
                        if p != provider {
                            let j = choose|j: int| 0 <= j < old_s.len() && old_s[j].0 == p;
                            assert(s[j] == old_s[j]);
                            assert(entries_map(s)[s[j].0] == s[j].1);
                        } else {
                            assert(entries_map(s)[s[i as int].0] == s[i as int].1);
                        }
                    }
                    assert forall|p: Principal| #[trigger] entries_map(s).contains_key(p) implies expected.contains_key(p) by {
                        let j = choose|j: int| 0 <= j < s.len() && s[j].0 == p;
                        if j != i {
                            assert(s[j] == old_s[j]);
                        }
                    }
                    assert(entries_map(s) =~= expected);
                }
                return;
            },
            None => {},
        }
        self.owed_kyt_amount.push((provider, fee));
        proof {
            let s = self.owed_kyt_amount@;
            assert(s.drop_last() =~= old_s);
            assert(keys_unique(s));
        }
    }
}

/// The index of the entry for `provider`, if there is one.
fn position_of(owed: &Vec<(Principal, u64)>, provider: &Principal) -> (r: Option<usize>)
    ensures
        match r {
            Some(i) => i < owed@.len() && owed@[i as int].0 == *provider,
            None => forall|j: int| 0 <= j < owed@.len() ==> (#[trigger] owed@[j]).0 != *provider,
        },
{
    let mut i: usize = 0;
    while i < owed.len()
        invariant
            i <= owed@.len(),
            forall|j: int| 0 <= j < i ==> (#[trigger] owed@[j]).0 != *provider,
        decreases owed@.len() - i,
    {
        if owed[i].0 == *provider {
            return Some(i);
        }
        i += 1;
    }
    None
}

/// The amount owed according to `owed`; zero for a provider it omits.
pub open spec fn owed_to(owed: Map<Principal, u64>, provider: Principal) -> nat {
    if owed.contains_key(provider) {
        owed[provider] as nat
    } else {
        0
    }
}

} // verus!
