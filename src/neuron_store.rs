//! Neurons kept on the heap, and the copy of the inactive ones in stable
//! memory.

use vstd::prelude::*;

verus! {

/// The identifier of a neuron.
#[derive(Clone, Copy, Debug, PartialEq, Eq, Hash, PartialOrd, Ord, Structural)]
pub struct NeuronId {
    pub id: u64,
}

/// A neuron, as far as its storage is concerned.
#[derive(Clone, Debug, PartialEq, Eq, Default)]
pub struct Neuron {
    pub id: Option<NeuronId>,
    pub account: Vec<u8>,
    pub cached_neuron_stake_e8s: u64,
}

impl Neuron {
    /// A copy of the neuron.
    pub fn duplicate(&self) -> (r: Self)
        ensures
            r.id == self.id,
            r.account@ == self.account@,
            r.cached_neuron_stake_e8s == self.cached_neuron_stake_e8s,
    {
        let mut account: Vec<u8> = Vec::new();
        let mut i: usize = 0;
        while i < self.account.len()
            invariant
                i <= self.account@.len(),
                account@ == self.account@.subrange(0, i as int),
            decreases self.account@.len() - i,
        {
            account.push(self.account[i]);
            i += 1;
            proof {
                assert(account@ =~= self.account@.subrange(0, i as int));
            }
        }
        proof {
            assert(account@ =~= self.account@);
        }
        Neuron { id: self.id, account, cached_neuron_stake_e8s: self.cached_neuron_stake_e8s }
    }
}

/// Kinds of governance errors.
#[derive(Clone, Copy, Debug, PartialEq, Eq, Structural)]
pub enum ErrorType {
    NotFound,
    PreconditionFailed,
}

/// An error of the governance canister.
#[derive(Clone, Debug, PartialEq, Eq)]
pub struct GovernanceError {
    pub error_type: ErrorType,
    pub error_message: String,
}

/// The decimal digits of `n`, without leading zeros.
pub open spec fn decimal_digits(n: nat) -> Seq<char>
    decreases n,
{
    if n < 10 {
        seq![digit_char(n)]
    } else {
        decimal_digits(n / 10) + seq![digit_char(n % 10)]
    }
}

pub open spec fn digit_char(d: nat) -> char {
    if d == 0 { '0' } else if d == 1 { '1' } else if d == 2 { '2' } else if d == 3 { '3' }
    else if d == 4 { '4' } else if d == 5 { '5' } else if d == 6 { '6' } else if d == 7 { '7' }
    else if d == 8 { '8' } else { '9' }
}

/// Relies on the `Display` of `u64` (through `ToString::to_string`): the
/// decimal digits of the number, without sign or leading zeros.
#[verifier::external_body]
fn decimal_string(n: u64) -> (r: String)
    ensures
        r@ == decimal_digits(n as nat),
{
    n.to_string()
}

/// Relies on `impl Add<&str> for String`: the second text appended to the first.
#[verifier::external_body]
fn concat(a: String, b: &str) -> (r: String)
    ensures
        r@ == a@ + b@,
{
    a + b
}

/// The message of the error for a neuron that stable memory does not hold.
pub open spec fn not_found_message(id: u64) -> Seq<char> {
    "Unable to find neuron "@ + decimal_digits(id as nat)
}

/// Whether neuron `id` is among `neurons`.
pub open spec fn holds_neuron(neurons: Seq<Neuron>, id: NeuronId) -> bool {
    exists|i: int| 0 <= i < neurons.len() && neurons[i].id == Some(id)
}

/// The neurons that a batch marks inactive, in batch order.
pub open spec fn inactive_neurons(batch: Seq<(Neuron, bool)>) -> Seq<Neuron>
    decreases batch.len(),
{
    if batch.len() == 0 {
        Seq::empty()
    } else if batch.last().1 {
        inactive_neurons(batch.drop_last()).push(batch.last().0)
    } else {
        inactive_neurons(batch.drop_last())
    }
}

/// The store of neurons: all of them on the heap, the inactive ones copied
/// to stable memory.
pub struct NeuronStore {
    heap_neurons: Vec<(u64, Neuron)>,
    stable_neurons: Vec<Neuron>,
}

impl NeuronStore {
    pub closed spec fn spec_stable(&self) -> Seq<Neuron> {
        self.stable_neurons@
    }

    pub closed spec fn spec_heap(&self) -> Seq<(u64, Neuron)> {
        self.heap_neurons@
    }

    /// A store of `heap_neurons`, with nothing in stable memory yet.
    pub fn new(heap_neurons: Vec<(u64, Neuron)>) -> (r: Self)
        ensures
            r.spec_heap() == heap_neurons@,
            r.spec_stable().len() == 0,
    {
        NeuronStore { heap_neurons, stable_neurons: Vec::new() }
    }

    /// Copies the neurons that `batch` marks inactive to stable memory, in
    /// order, and returns the id of the batch's last neuron, from which the
    /// next batch goes on. A neuron that stable memory already holds is
    /// refused, and the copying stops there.
    pub fn batch_add_inactive_neurons_to_stable_memory(
        &mut self,
        batch: Vec<(Neuron, bool)>,
    ) -> (r: Result<Option<NeuronId>, String>)
        requires
            forall|i: int| 0 <= i < batch@.len() ==> (#[trigger] batch@[i]).0.id.is_some(),
        ensures
            final(self).spec_heap() == old(self).spec_heap(),
            r.is_ok() ==> final(self).spec_stable() == old(self).spec_stable() + inactive_neurons(batch@),
            r matches Ok(last) ==> last == if batch@.len() == 0 {
                None
            } else {
                batch@.last().0.id
            },
            r.is_err() <==> exists|i: int|
                0 <= i < batch@.len() && (#[trigger] batch@[i]).1 && holds_neuron(
                    old(self).spec_stable() + inactive_neurons(batch@.subrange(0, i)),
                    batch@[i].0.id.unwrap(),
                ),
    {
        let ghost b = batch@;
        let ghost start = self.stable_neurons@;
        let mut last_neuron_id: Option<NeuronId> = None;
        proof {
            assert(b.subrange(0, 0) =~= Seq::<(Neuron, bool)>::empty());
            assert(self.stable_neurons@ =~= start + inactive_neurons(b.subrange(0, 0)));
        }
        for entry in it: batch.into_iter()
            invariant
                it.seq() == b,
                0 <= it.index() <= b.len(),
                forall|i: int| 0 <= i < b.len() ==> (#[trigger] b[i]).0.id.is_some(),
                self.heap_neurons@ == old(self).heap_neurons@,
                start == old(self).stable_neurons@,
                self.stable_neurons@ == start + inactive_neurons(b.subrange(0, it.index() as int)),
                last_neuron_id == if it.index() == 0 {
                    None
                } else {
                    b[it.index() - 1].0.id
                },
                forall|i: int| 0 <= i < it.index() && (#[trigger] b[i]).1 ==> !holds_neuron(
                    start + inactive_neurons(b.subrange(0, i)),
                    b[i].0.id.unwrap(),
                ),
        {
            let ghost idx = it.index();
            let (neuron, is_inactive) = entry;
            let id = neuron.id.unwrap();
            proof {
                assert(b.subrange(0, idx + 1).drop_last() =~= b.subrange(0, idx));
            }
            if is_inactive {
                if self.stable_position(id).is_some() {
                    return Err(concat(
                        concat("Neuron ".to_owned(), decimal_string(id.id).as_str()),
                        " already exists in stable memory",
                    ));
                }
                self.stable_neurons.push(neuron);
                proof {
                    assert(self.stable_neurons@ =~= start + inactive_neurons(b.subrange(0, idx + 1)));
                }
            }
            last_neuron_id = Some(id);
        }
        proof {
            assert(b.subrange(0, b.len() as int) =~= b);
        }
        Ok(last_neuron_id)
    }

    fn stable_position(&self, id: NeuronId) -> (r: Option<usize>)
        ensures
            r.is_some() <==> holds_neuron(self.stable_neurons@, id),
            r matches Some(i) ==> i < self.stable_neurons@.len() && self.stable_neurons@[i as int].id == Some(id),
    {
        let mut i: usize = 0;
        while i < self.stable_neurons.len()
            invariant
                i <= self.stable_neurons@.len(),
                forall|j: int| 0 <= j < i ==> (#[trigger] self.stable_neurons@[j]).id != Some(id),
            decreases self.stable_neurons@.len() - i,
        {
            let same = match self.stable_neurons[i].id {
                Some(found) => found.id == id.id,
                None => false,
            };
            if same {
                return Some(i);
            }
            i += 1;
        }
        None
    }

    /// Reads neuron `id` from stable memory.
    pub fn read_stable(&self, id: NeuronId) -> (r: Result<Neuron, GovernanceError>)
        ensures
            r.is_ok() <==> holds_neuron(self.spec_stable(), id),
            r matches Ok(n) ==> n.id == Some(id) && exists|i: int| 0 <= i < self.spec_stable().len()
                && self.spec_stable()[i].id == Some(id) && self.spec_stable()[i].account@ == n.account@
                && self.spec_stable()[i].cached_neuron_stake_e8s == n.cached_neuron_stake_e8s,
            r matches Err(e) ==> e.error_type == ErrorType::NotFound && e.error_message@ == not_found_message(id.id),
    {
        match self.stable_position(id) {
            Some(i) => {
                let n = self.stable_neurons[i].duplicate();
                proof {
                    let k = i as int;
                    assert(0 <= k < self.spec_stable().len() && self.spec_stable()[k].id == Some(id)
                        && self.spec_stable()[k].account@ == n.account@);
                }
                Ok(n)
            },
            None => Err(GovernanceError {
                error_type: ErrorType::NotFound,
                error_message: concat("Unable to find neuron ".to_owned(), decimal_string(id.id).as_str()),
            }),
        }
    }
}

} // verus!
