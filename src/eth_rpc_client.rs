//! Reconciliation of the outcomes that several providers gave for one query.

use vstd::prelude::*;
use vstd::std_specs::cmp::{OrdSpec, PartialOrdSpec};
use core::cmp::Ordering;
use crate::eth_rpc::{
    are_errors_consistent, errors_consistent, is_success, success_value, HttpOutcallError,
    HttpOutcallErrorView, HttpOutcallResult, JsonRpcResult,
};
use crate::outcome_map::{
    entries_map, lemma_entries_map_unique, lemma_ordered_entries_determined, lemma_ordered_unique,
    keys_unique, strictly_ordered,
};
use crate::providers::{lemma_rank_injective, network_providers, providers_of, EthereumNetwork, RpcNodeProvider};
use crate::state::State;

verus! {

/// Aggregates the outcomes of different providers to the same query,
/// one per provider, ordered by provider. Never empty.
#[derive(Debug, PartialEq, Eq)]
pub struct MultiCallResults<T> {
    results: Vec<(RpcNodeProvider, HttpOutcallResult<JsonRpcResult<T>>)>,
}

impl<T> View for MultiCallResults<T> {
    type V = Seq<(RpcNodeProvider, HttpOutcallResult<JsonRpcResult<T>>)>;

    closed spec fn view(&self) -> Self::V {
        self.results@
    }
}

impl<T> MultiCallResults<T> {
    #[verifier::type_invariant]
    closed spec fn inv(self) -> bool {
        &&& self.results@.len() > 0
        &&& strictly_ordered(self.results@)
    }

    /// Collects the outcomes into a set keyed by provider, as an ordered map
    /// would: a later outcome for the same provider replaces an earlier one.
    /// An empty input is a programming error and is not admitted.
    pub fn from_non_empty_iter(
        iter: Vec<(RpcNodeProvider, HttpOutcallResult<JsonRpcResult<T>>)>,
    ) -> (r: Self)
        requires
            iter@.len() > 0,
        ensures
            r@.len() > 0,
            strictly_ordered(r@),
            entries_map(r@) == entries_map(iter@),
    {
        let ghost orig = iter@;
        let mut input = iter;
        let mut results: Vec<(RpcNodeProvider, HttpOutcallResult<JsonRpcResult<T>>)> = Vec::new();
        while input.len() > 0
            invariant
                orig.len() > 0,
                input@.len() <= orig.len(),
                input@ == orig.subrange(0, input@.len() as int),
                strictly_ordered(results@),
                entries_map(orig) == entries_map(input@).union_prefer_right(entries_map(results@)),
                input@.len() < orig.len() ==> results@.len() > 0,
            decreases input@.len(),
        {
            let ghost before = input@;
            let ghost m = entries_map(results@);
            let entry = input.pop().unwrap();
            proof {
                assert(before.drop_last() =~= input@);
                assert(input@ =~= orig.subrange(0, input@.len() as int));
            }
            let ghost k = entry.0;
            let ghost v = entry.1;
            insert_if_absent(&mut results, entry);
            proof {
                let a = entries_map(input@);
                if m.contains_key(k) {
                    assert(a.insert(k, v).union_prefer_right(m) =~= a.union_prefer_right(m));
                } else {
                    assert(a.insert(k, v).union_prefer_right(m) =~= a.union_prefer_right(m.insert(k, v)));
                }
            }
        }
        proof {
            assert(entries_map(input@) =~= Map::empty());
            assert(entries_map(orig) =~= entries_map(results@));
        }
        MultiCallResults { results }
    }
}

/// Adds `entry` at its place in ordered entries, unless its provider is
/// already there.
fn insert_if_absent<V>(results: &mut Vec<(RpcNodeProvider, V)>, entry: (RpcNodeProvider, V))
    requires
        strictly_ordered(old(results)@),
    ensures
        strictly_ordered(final(results)@),
        final(results)@.len() > 0,
        entries_map(final(results)@) == if entries_map(old(results)@).contains_key(entry.0) {
            entries_map(old(results)@)
        } else {
            entries_map(old(results)@).insert(entry.0, entry.1)
        },
{
    let ghost old_s = results@;
    let rank = entry.0.rank();
    let mut i: usize = 0;
    while i < results.len() && results[i].0.rank() < rank
        invariant
            i <= results@.len(),
            results@ == old_s,
            forall|j: int| 0 <= j < i ==> (#[trigger] results@[j]).0.spec_rank() < rank,
        decreases results@.len() - i,
    {
        i += 1;
    }
    proof {
        lemma_ordered_unique(old_s);
        lemma_entries_map_unique(old_s);
    }
    if i < results.len() && results[i].0.rank() == rank {
        proof {
            lemma_rank_injective(old_s[i as int].0, entry.0);
            assert(entries_map(old_s).contains_key(entry.0));
        }
        return;
    }
    proof {
        assert forall|j: int| 0 <= j < old_s.len() implies #[trigger] old_s[j].0 != entry.0 by {
            if j >= i {
                if j > i {
                    assert(old_s[i as int].0.spec_rank() < old_s[j].0.spec_rank());
                }
            }
        }
        assert(!entries_map(old_s).contains_key(entry.0));
    }
    let ghost k = entry.0;
    let ghost v = entry.1;
    results.insert(i, entry);
    proof {
        let s = results@;
        assert(s =~= old_s.insert(i as int, (k, v)));
        assert forall|a: int, b: int| 0 <= a < b < s.len() implies #[trigger] s[a].0.spec_rank() < #[trigger] s[b].0.spec_rank() by {
            if b == i {
            } else if a == i {
                assert(s[b] == old_s[b - 1]);
                if b - 1 > i {
                    assert(old_s[i as int].0.spec_rank() < old_s[b - 1].0.spec_rank());
                }
            } else {
                if a < i && b > i {
                    assert(s[b] == old_s[b - 1]);
                    assert(s[a] == old_s[a]);
                    if b - 1 > a {
                        assert(old_s[a].0.spec_rank() < old_s[b - 1].0.spec_rank());
                    }
                } else if a > i {
                    assert(old_s[a - 1].0.spec_rank() < old_s[b - 1].0.spec_rank());
                }
            }
        }
        lemma_ordered_unique(s);
        lemma_entries_map_unique(s);
        let expected = entries_map(old_s).insert(k, v);
        assert forall|p: RpcNodeProvider| entries_map(s).contains_key(p) implies expected.contains_key(p) by {
            let j = choose|j: int| 0 <= j < s.len() && s[j].0 == p;
            if j < i {
                assert(s[j] == old_s[j]);
                assert(0 <= j < old_s.len() && old_s[j].0 == p);
            } else if j > i {
                assert(s[j] == old_s[j - 1]);
                assert(0 <= j - 1 < old_s.len() && old_s[j - 1].0 == p);
            }
        }
        assert forall|p: RpcNodeProvider| #[trigger] expected.contains_key(p) implies entries_map(s).contains_key(p) && entries_map(s)[p] == expected[p] by {
            if p == k {
                assert(0 <= i < s.len() && s[i as int].0 == p);
            } else {
                let j = choose|j: int| 0 <= j < old_s.len() && old_s[j].0 == p;
                if j < i {
                    assert(s[j] == old_s[j]);
                    assert(0 <= j < s.len() && s[j].0 == p);
                    assert(entries_map(s)[s[j].0] == s[j].1);
                } else {
                    assert(s[j + 1] == old_s[j]);
                    assert(0 <= j + 1 < s.len() && s[j + 1].0 == p);
                    assert(entries_map(s)[s[j + 1].0] == s[j + 1].1);
                }
                assert(entries_map(old_s)[old_s[j].0] == old_s[j].1);
            }
        }
        assert forall|p: RpcNodeProvider| #[trigger] entries_map(s).dom().contains(p) == expected.dom().contains(p) by {
            if entries_map(s).contains_key(p) {
                assert(expected.contains_key(p));
            }
            if expected.contains_key(p) {
                assert(entries_map(s).contains_key(p));
            }
        }
        assert(entries_map(s).dom() =~= expected.dom());
        assert(entries_map(s) =~= expected);
    }
}

/// Why the outcomes of several providers could not be reduced to one value.
#[derive(Debug, PartialEq, Eq)]
pub enum MultiCallError<T> {
    /// Every provider that did not succeed failed at the transport with this same error.
    ConsistentHttpOutcallError(HttpOutcallError),
    /// Every provider that did not succeed reported this same JSON-RPC error.
    ConsistentJsonRpcError { code: i64, message: String },
    /// The providers disagree; the entries are the evidence.
    InconsistentResults(MultiCallResults<T>),
}

/// Plain-value form of a `MultiCallError`.
pub enum MultiCallErrorView<T> {
    ConsistentHttpOutcallError(HttpOutcallErrorView),
    ConsistentJsonRpcError { code: i64, message: Seq<char> },
    InconsistentResults(Seq<(RpcNodeProvider, HttpOutcallResult<JsonRpcResult<T>>)>),
}

impl<T> View for MultiCallError<T> {
    type V = MultiCallErrorView<T>;

    open spec fn view(&self) -> MultiCallErrorView<T> {
        match self {
            MultiCallError::ConsistentHttpOutcallError(e) => {
                MultiCallErrorView::ConsistentHttpOutcallError(e@)
            },
            MultiCallError::ConsistentJsonRpcError { code, message } => {
                MultiCallErrorView::ConsistentJsonRpcError { code: *code, message: message@ }
            },
            MultiCallError::InconsistentResults(r) => MultiCallErrorView::InconsistentResults(r@),
        }
    }
}

/// Plain-value form of a reconciliation result.
pub open spec fn verdict_view<A, T>(r: Result<A, MultiCallError<T>>) -> Result<A, MultiCallErrorView<T>> {
    match r {
        Ok(a) => Ok(a),
        Err(e) => Err(e@),
    }
}

/// Index of the first entry at or after `i` that is not a success; the
/// length when there is none.
pub open spec fn first_failure<T>(s: Seq<(RpcNodeProvider, HttpOutcallResult<JsonRpcResult<T>>)>, i: int) -> int
    decreases s.len() - i,
{
    if i >= s.len() {
        s.len() as int
    } else if !is_success(s[i].1) {
        i
    } else {
        first_failure(s, i + 1)
    }
}

/// Index of the first failure at or after `i` that is not the same error as
/// the one at `w`; the length when there is none.
pub open spec fn first_conflict<T>(
    s: Seq<(RpcNodeProvider, HttpOutcallResult<JsonRpcResult<T>>)>,
    w: int,
    i: int,
) -> int
    decreases s.len() - i,
{
    if i >= s.len() {
        s.len() as int
    } else if !is_success(s[i].1) && !errors_consistent(s[w].1, s[i].1) {
        i
    } else {
        first_conflict(s, w, i + 1)
    }
}

/// The values of successful entries, with their providers.
pub open spec fn success_entries<T>(s: Seq<(RpcNodeProvider, HttpOutcallResult<JsonRpcResult<T>>)>) -> Seq<(RpcNodeProvider, T)> {
    s.map_values(|e: (RpcNodeProvider, HttpOutcallResult<JsonRpcResult<T>>)| (e.0, success_value(e.1)))
}

/// The verdict on an outcome set before any reduction. When every provider
/// succeeded: their values. Otherwise the first failure is the witness;
/// the first later failure that is a different error makes the results
/// inconsistent, with the witness and that failure as the evidence; when
/// there is none, every failure is the witness's error.
pub open spec fn classify<T>(s: Seq<(RpcNodeProvider, HttpOutcallResult<JsonRpcResult<T>>)>) -> Result<Seq<(RpcNodeProvider, T)>, MultiCallErrorView<T>> {
    let w = first_failure(s, 0);
    if w >= s.len() {
        Ok(success_entries(s))
    } else {
        let c = first_conflict(s, w, w + 1);
        if c < s.len() {
            Err(MultiCallErrorView::InconsistentResults(seq![s[w], s[c]]))
        } else {
            match s[w].1 {
                Err(e) => Err(MultiCallErrorView::ConsistentHttpOutcallError(e@)),
                Ok(JsonRpcResult::Error { code, message }) => Err(
                    MultiCallErrorView::ConsistentJsonRpcError { code, message: message@ },
                ),
                Ok(JsonRpcResult::Result(_)) => arbitrary(),
            }
        }
    }
}

proof fn lemma_first_failure_bounds<T>(s: Seq<(RpcNodeProvider, HttpOutcallResult<JsonRpcResult<T>>)>, i: int)
    requires
        0 <= i <= s.len(),
    ensures
        i <= first_failure(s, i) <= s.len(),
        forall|k: int| i <= k < first_failure(s, i) ==> is_success(#[trigger] s[k].1),
        first_failure(s, i) < s.len() ==> !is_success(s[first_failure(s, i)].1),
    decreases s.len() - i,
{
    if i < s.len() && is_success(s[i].1) {
        lemma_first_failure_bounds(s, i + 1);
    }
}

proof fn lemma_first_conflict_bounds<T>(
    s: Seq<(RpcNodeProvider, HttpOutcallResult<JsonRpcResult<T>>)>,
    w: int,
    i: int,
)
    requires
        0 <= w < s.len(),
        0 <= i <= s.len(),
    ensures
        i <= first_conflict(s, w, i) <= s.len(),
        forall|k: int|
            i <= k < first_conflict(s, w, i) && !is_success(#[trigger] s[k].1) ==> errors_consistent(s[w].1, s[k].1),
        first_conflict(s, w, i) < s.len() ==> !is_success(s[first_conflict(s, w, i)].1)
            && !errors_consistent(s[w].1, s[first_conflict(s, w, i)].1),
    decreases s.len() - i,
{
    if i < s.len() && (is_success(s[i].1) || errors_consistent(s[w].1, s[i].1)) {
        lemma_first_conflict_bounds(s, w, i + 1);
    }
}

impl<T> MultiCallResults<T> {
    /// Partitions the outcomes: all values when every provider succeeded,
    /// otherwise the error that `classify` names. The evidence of
    /// inconsistent errors is kept minimal: the first failure and the first
    /// later failure that differs from it, which attributes the disagreement
    /// to two providers.
    fn all_ok(self) -> (r: Result<Vec<(RpcNodeProvider, T)>, MultiCallError<T>>)
        ensures
            r.is_ok() ==> self@.len() > 0 && strictly_ordered(self@),
            match r {
                Ok(v) => classify(self@) == Ok::<Seq<(RpcNodeProvider, T)>, MultiCallErrorView<T>>(v@),
                Err(e) => classify(self@) == Err::<Seq<(RpcNodeProvider, T)>, MultiCallErrorView<T>>(e@),
            },
    {
        proof {
            use_type_invariant(&self);
        }
        let ghost s = self@;
        let mut results: Vec<(RpcNodeProvider, T)> = Vec::new();
        let mut first_error: Option<(RpcNodeProvider, HttpOutcallResult<JsonRpcResult<T>>)> = None;
        let ghost mut w: int = 0;
        proof {
            lemma_first_failure_bounds(s, 0);
            assert(success_entries(s.subrange(0, 0)) =~= Seq::empty());
        }
        for entry in it: self.results.into_iter()
            invariant
                it.seq() == s,
                s.len() > 0,
                strictly_ordered(s),
                0 <= it.index() <= s.len(),
                match first_error {
                    None => {
                        &&& first_failure(s, 0) >= it.index()
                        &&& results@ == success_entries(s.subrange(0, it.index() as int))
                    },
                    Some(fe) => {
                        &&& first_failure(s, 0) == w
                        &&& 0 <= w < it.index()
                        &&& fe == s[w]
                        &&& first_conflict(s, w, w + 1) >= it.index()
                    },
                },
        {
            proof {
                lemma_first_failure_bounds(s, 0);
            }
            let ghost idx = it.index();
            let (provider, result) = entry;
            match result {
                Ok(JsonRpcResult::Result(value)) => {
                    if first_error.is_none() {
                        results.push((provider, value));
                        proof {
                            assert(success_entries(s.subrange(0, idx + 1)) =~= success_entries(s.subrange(0, idx)).push((provider, value)));
                        }
                    }
                    proof {
                        if first_error.is_some() {
                            lemma_first_conflict_bounds(s, w, w + 1);
                        }
                    }
                },
                _ => {
                    match first_error {
                        None => {
                            proof {
                                assert(first_failure(s, 0) == idx);
                                lemma_first_conflict_bounds(s, idx, idx + 1);
                            }
                            first_error = Some((provider, result));
                            proof {
                                w = idx;
                            }
                        },
                        Some((first_error_provider, error)) => {
                            proof {
                                lemma_first_conflict_bounds(s, w, w + 1);
                            }
                            if !are_errors_consistent(&error, &result) {
                                proof {
                                    assert(first_conflict(s, w, w + 1) == idx);
                                    assert(s[w].0.spec_rank() < s[idx].0.spec_rank());
                                }
                                return Err(
                                    MultiCallError::InconsistentResults(
                                        MultiCallResults {
                                            results: vec![
                                                (first_error_provider, error),
                                                (provider, result),
                                            ],
                                        },
                                    ),
                                );
                            }
                            first_error = Some((first_error_provider, error));
                        },
                    }
                },
            }
        }
        proof {
            lemma_first_failure_bounds(s, 0);
        }
        match first_error {
            None => {
                proof {
                    assert(s.subrange(0, s.len() as int) =~= s);
                }
                Ok(results)
            },
            Some((_provider, Ok(JsonRpcResult::Error { code, message }))) => {
                proof {
                    lemma_first_conflict_bounds(s, w, w + 1);
                }
                Err(MultiCallError::ConsistentJsonRpcError { code, message })
            },
            Some((_provider, Err(error))) => {
                proof {
                    lemma_first_conflict_bounds(s, w, w + 1);
                }
                Err(MultiCallError::ConsistentHttpOutcallError(error))
            },
            Some((_provider, Ok(JsonRpcResult::Result(_)))) => {
                // the witness is always a failure
                proof {
                    lemma_first_failure_bounds(s, 0);
                }
                vstd::pervasive::unreached()
            },
        }
    }
}

/// The entries of `s` whose value is not `v`, in order.
pub open spec fn entries_differing<T>(s: Seq<(RpcNodeProvider, T)>, v: T) -> Seq<(RpcNodeProvider, T)>
    decreases s.len(),
{
    if s.len() == 0 {
        Seq::empty()
    } else if s.last().1 != v {
        entries_differing(s.drop_last(), v).push(s.last())
    } else {
        entries_differing(s.drop_last(), v)
    }
}

/// Values turned back into successful outcomes.
pub open spec fn as_outcomes<T>(s: Seq<(RpcNodeProvider, T)>) -> Seq<(RpcNodeProvider, HttpOutcallResult<JsonRpcResult<T>>)> {
    s.map_values(|e: (RpcNodeProvider, T)| (e.0, Ok::<JsonRpcResult<T>, HttpOutcallError>(JsonRpcResult::Result(e.1))))
}

/// Reduction by equality: when every provider succeeded, the value of the
/// first provider if all values equal it; otherwise the results are
/// inconsistent, with the first provider's value and every value that
/// differs from it as the evidence.
pub open spec fn reduce_by_equality<T>(s: Seq<(RpcNodeProvider, HttpOutcallResult<JsonRpcResult<T>>)>) -> Result<T, MultiCallErrorView<T>> {
    match classify(s) {
        Err(e) => Err(e),
        Ok(vals) => {
            let base = vals[0];
            let differing = entries_differing(vals.subrange(1, vals.len() as int), base.1);
            if differing.len() == 0 {
                Ok(base.1)
            } else {
                Err(MultiCallErrorView::InconsistentResults(as_outcomes(seq![base] + differing)))
            }
        },
    }
}

/// Each differing entry is an entry of `s`, and order is kept.
proof fn lemma_entries_differing<T>(s: Seq<(RpcNodeProvider, T)>, v: T)
    ensures
        entries_differing(s, v).len() <= s.len(),
        forall|j: int| 0 <= j < entries_differing(s, v).len() ==>
            exists|k: int| 0 <= k < s.len() && s[k] == #[trigger] entries_differing(s, v)[j],
        forall|j: int| 0 <= j < entries_differing(s, v).len() ==> (#[trigger] entries_differing(s, v)[j]).1 != v,
        strictly_ordered(s) ==> strictly_ordered(entries_differing(s, v)),
        entries_differing(s, v).len() == 0 ==> forall|k: int| 0 <= k < s.len() ==> (#[trigger] s[k]).1 == v,
    decreases s.len(),
{
    if s.len() > 0 {
        let t = s.drop_last();
        lemma_entries_differing(t, v);
        let d = entries_differing(s, v);
        let dt = entries_differing(t, v);
        assert forall|j: int| 0 <= j < d.len() implies exists|k: int| 0 <= k < s.len() && s[k] == #[trigger] d[j] by {
            if j < dt.len() {
                let k = choose|k: int| 0 <= k < t.len() && t[k] == dt[j];
                assert(s[k] == d[j]);
            } else {
                assert(s[s.len() - 1] == d[j]);
            }
        }
        if strictly_ordered(s) {
            assert(strictly_ordered(t));
            if s.last().1 != v {
                assert forall|a: int, b: int| 0 <= a < b < d.len() implies #[trigger] d[a].0.spec_rank() < #[trigger] d[b].0.spec_rank() by {
                    if b == d.len() - 1 {
                        let k = choose|k: int| 0 <= k < t.len() && t[k] == dt[a];
                        assert(s[k] == t[k]);
                    } else {
                        assert(d[a] == dt[a] && d[b] == dt[b]);
                    }
                }
            }
        }
        if d.len() == 0 {
            assert forall|k: int| 0 <= k < s.len() implies (#[trigger] s[k]).1 == v by {
                if k < s.len() - 1 {
                    assert(s[k] == t[k]);
                }
            }
        }
    }
}

impl<T: PartialEq> MultiCallResults<T> {
    /// Expects every provider to succeed with the same value, and returns it.
    /// Otherwise reports the error of `classify`, or inconsistent results
    /// made of the first provider's value and every value that differs.
    /// Values are compared with their `==`, which must be structural
    /// equality: two encodings of one fact have to decode to equal values.
    pub fn reduce_with_equality(self) -> (r: Result<T, MultiCallError<T>>)
        requires
            vstd::laws_eq::obeys_concrete_eq::<T>(),
        ensures
            verdict_view(r) == reduce_by_equality(self@),
    {
        let ghost s = self@;
        let results = match self.all_ok() {
            Ok(results) => results,
            Err(e) => {
                return Err(e);
            },
        };
        let ghost vals = results@;
        proof {
            reveal(vstd::laws_eq::obeys_concrete_eq);
            lemma_first_failure_bounds(s, 0);
            assert(vals =~= success_entries(s));
            assert(strictly_ordered(vals)) by {
                assert forall|a: int, b: int| 0 <= a < b < vals.len() implies #[trigger] vals[a].0.spec_rank() < #[trigger] vals[b].0.spec_rank() by {
                    assert(vals[a].0 == s[a].0 && vals[b].0 == s[b].0);
                }
            }
            assert(entries_differing(vals.subrange(1, 1), vals[0].1) =~= Seq::empty());
        }
        let mut base: Option<(RpcNodeProvider, T)> = None;
        let mut inconsistent: Vec<(RpcNodeProvider, HttpOutcallResult<JsonRpcResult<T>>)> = Vec::new();
        for entry in it: results.into_iter()
            invariant
                it.seq() == vals,
                vals.len() > 0,
                0 <= it.index() <= vals.len(),
                it.index() == 0 <==> base.is_none(),
                it.index() == 0 ==> inconsistent@.len() == 0,
                base.is_some() ==> base.unwrap() == vals[0],
                it.index() > 0 ==> inconsistent@ == as_outcomes(entries_differing(vals.subrange(1, it.index() as int), vals[0].1)),
                vstd::laws_eq::obeys_concrete_eq::<T>(),
        {
            let ghost idx = it.index();
            if base.is_none() {
                base = Some(entry);
                proof {
                    assert(inconsistent@ =~= as_outcomes(entries_differing(vals.subrange(1, 1), vals[0].1)));
                }
            } else {
                let same = match &base {
                    Some(b) => entry.1.eq(&b.1),
                    None => true,
                };
                proof {
                    reveal(vstd::laws_eq::obeys_concrete_eq);
                    assert(vals.subrange(1, idx + 1).drop_last() =~= vals.subrange(1, idx));
                }
                if !same {
                    inconsistent.push((entry.0, Ok(JsonRpcResult::Result(entry.1))));
                }
                proof {
                    assert(inconsistent@ =~= as_outcomes(entries_differing(vals.subrange(1, idx + 1), vals[0].1)));
                }
            }
        }
        let base = base.unwrap();
        proof {
            lemma_entries_differing(vals.subrange(1, vals.len() as int), vals[0].1);
        }
        if inconsistent.len() > 0 {
            let ghost differing = entries_differing(vals.subrange(1, vals.len() as int), vals[0].1);
            let mut evidence = vec![(base.0, Ok(JsonRpcResult::Result(base.1)))];
            evidence.append(&mut inconsistent);
            proof {
                assert(evidence@ =~= as_outcomes(seq![vals[0]] + differing));
                assert forall|a: int, b: int| 0 <= a < b < evidence@.len() implies #[trigger] evidence@[a].0.spec_rank() < #[trigger] evidence@[b].0.spec_rank() by {
                    if a == 0 {
                        let k = choose|k: int| 0 <= k < vals.len() - 1 && vals.subrange(1, vals.len() as int)[k] == differing[b - 1];
                        assert(vals[k + 1] == differing[b - 1]);
                    } else {
                        assert(differing[a - 1].0.spec_rank() < differing[b - 1].0.spec_rank());
                    }
                }
            }
            return Err(MultiCallError::InconsistentResults(MultiCallResults { results: evidence }));
        }
        Ok(base.1)
    }
}

/// The key that a deterministic extractor gives a value.
pub open spec fn key_of<T, K, F: Fn(&T) -> K>(f: F, t: T) -> K {
    choose|k: K| f.ensures((&t,), k)
}

/// `j` is the entry whose key is smallest, the first one on ties.
pub open spec fn is_first_min<T, K: Ord, F: Fn(&T) -> K>(vals: Seq<(RpcNodeProvider, T)>, f: F, j: int) -> bool {
    &&& 0 <= j < vals.len()
    &&& forall|i: int| 0 <= i < j ==>
        key_of(f, vals[j].1).cmp_spec(&key_of(f, #[trigger] vals[i].1)) == Ordering::Less
    &&& forall|i: int| j < i < vals.len() ==>
        key_of(f, vals[j].1).cmp_spec(&key_of(f, #[trigger] vals[i].1)) != Ordering::Greater
}

/// The laws of a total order whose equality is structural.
proof fn lemma_total_order<K: Ord>()
    requires
        vstd::laws_cmp::obeys_cmp::<K>(),
        vstd::laws_eq::obeys_concrete_eq::<K>(),
    ensures
        K::obeys_partial_cmp_spec(),
        forall|a: K, b: K| #[trigger] a.partial_cmp_spec(&b) == Some(a.cmp_spec(&b)),
        forall|a: K, b: K, c: K|
            #[trigger] a.cmp_spec(&b) == Ordering::Less && #[trigger] b.cmp_spec(&c) == Ordering::Less
                ==> a.cmp_spec(&c) == Ordering::Less,
        forall|a: K, b: K| #[trigger] a.cmp_spec(&b) == Ordering::Less <==> b.cmp_spec(&a) == Ordering::Greater,
        forall|a: K, b: K| #[trigger] a.cmp_spec(&b) == Ordering::Equal <==> a == b,
{
    reveal(vstd::laws_cmp::obeys_partial_cmp_spec_properties);
    reveal(vstd::laws_cmp::obeys_cmp_partial_ord);
    reveal(vstd::laws_cmp::obeys_cmp_ord);
    reveal(vstd::laws_eq::obeys_concrete_eq);
    assert forall|a: K, b: K, c: K|
        #[trigger] a.cmp_spec(&b) == Ordering::Less && #[trigger] b.cmp_spec(&c) == Ordering::Less
            implies a.cmp_spec(&c) == Ordering::Less by {
        assert(a.partial_cmp_spec(&b) == Some(a.cmp_spec(&b)));
        assert(b.partial_cmp_spec(&c) == Some(b.cmp_spec(&c)));
        assert(a.partial_cmp_spec(&c) == Some(a.cmp_spec(&c)));
    }
    assert forall|a: K, b: K| #[trigger] a.cmp_spec(&b) == Ordering::Less <==> b.cmp_spec(&a) == Ordering::Greater by {
        assert(a.partial_cmp_spec(&b) == Some(a.cmp_spec(&b)));
        assert(b.partial_cmp_spec(&a) == Some(b.cmp_spec(&a)));
    }
    assert forall|a: K, b: K| #[trigger] a.cmp_spec(&b) == Ordering::Equal <==> a == b by {
        assert(a.partial_cmp_spec(&b) == Some(a.cmp_spec(&b)));
    }
}

/// `r` holds the value whose key is smallest, the first in provider order on ties.
pub open spec fn is_min_by_key<T, K: Ord, F: Fn(&T) -> K>(
    vals: Seq<(RpcNodeProvider, T)>,
    f: F,
    r: Result<T, MultiCallErrorView<T>>,
) -> bool {
    &&& forall|i: int| 0 <= i < vals.len() ==> f.ensures((&(#[trigger] vals[i]).1,), key_of(f, vals[i].1))
    &&& exists|j: int| #[trigger] is_first_min(vals, f, j) && r == Ok::<T, MultiCallErrorView<T>>(vals[j].1)
}

impl<T> MultiCallResults<T> {
    /// Expects every provider to succeed, and returns the value whose key is
    /// smallest; ties go to the first provider. Otherwise reports the error
    /// of `classify`.
    pub fn reduce_with_min_by_key<F: Fn(&T) -> K, K: Ord>(self, extractor: F) -> (r: Result<T, MultiCallError<T>>)
        requires
            forall|t: &T| #[trigger] extractor.requires((t,)),
            forall|t: &T, k1: K, k2: K|
                #[trigger] extractor.ensures((t,), k1) && #[trigger] extractor.ensures((t,), k2) ==> k1 == k2,
            vstd::laws_cmp::obeys_cmp::<K>(),
            vstd::laws_eq::obeys_concrete_eq::<K>(),
        ensures
            match classify(self@) {
                Err(e) => verdict_view(r) == Err::<T, MultiCallErrorView<T>>(e),
                Ok(vals) => is_min_by_key(vals, extractor, verdict_view(r)),
            },
    {
        let ghost s = self@;
        let values = match self.all_ok() {
            Ok(values) => values,
            Err(e) => {
                return Err(e);
            },
        };
        let ghost vals = values@;
        proof {
            lemma_first_failure_bounds(s, 0);
            lemma_total_order::<K>();
        }
        let mut min: Option<(T, K)> = None;
        let ghost mut m: int = 0;
        for entry in it: values.into_iter()
            invariant
                it.seq() == vals,
                vals.len() > 0,
                0 <= it.index() <= vals.len(),
                it.index() == 0 <==> min.is_none(),
                forall|t: &T| #[trigger] extractor.requires((t,)),
                forall|t: &T, k1: K, k2: K|
                    #[trigger] extractor.ensures((t,), k1) && #[trigger] extractor.ensures((t,), k2) ==> k1 == k2,
                K::obeys_partial_cmp_spec(),
                forall|a: K, b: K| #[trigger] a.partial_cmp_spec(&b) == Some(a.cmp_spec(&b)),
                forall|a: K, b: K, c: K|
                    #[trigger] a.cmp_spec(&b) == Ordering::Less && #[trigger] b.cmp_spec(&c) == Ordering::Less
                        ==> a.cmp_spec(&c) == Ordering::Less,
                forall|a: K, b: K| #[trigger] a.cmp_spec(&b) == Ordering::Less <==> b.cmp_spec(&a) == Ordering::Greater,
                forall|a: K, b: K| #[trigger] a.cmp_spec(&b) == Ordering::Equal <==> a == b,
                forall|i: int| 0 <= i < it.index() ==> extractor.ensures((&(#[trigger] vals[i]).1,), key_of(extractor, vals[i].1)),
                min.is_some() ==> {
                    &&& 0 <= m < it.index()
                    &&& min.unwrap().0 == vals[m].1
                    &&& min.unwrap().1 == key_of(extractor, vals[m].1)
                    &&& forall|i: int| 0 <= i < m ==>
                        key_of(extractor, vals[m].1).cmp_spec(&key_of(extractor, #[trigger] vals[i].1)) == Ordering::Less
                    &&& forall|i: int| m < i < it.index() ==>
                        key_of(extractor, vals[m].1).cmp_spec(&key_of(extractor, #[trigger] vals[i].1)) != Ordering::Greater
                },
        {
            let ghost idx = it.index();
            let (_provider, value) = entry;
            let key = extractor(&value);
            proof {
                assert(extractor.ensures((&value,), key_of(extractor, value)));
            }
            min = match min {
                None => {
                    proof {
                        m = idx;
                    }
                    Some((value, key))
                },
                Some((min_value, min_key)) => {
                    if key.lt(&min_key) {
                        proof {
                            let km = key_of(extractor, vals[m].1);
                            assert forall|i: int| 0 <= i < idx implies
                                key.cmp_spec(&key_of(extractor, #[trigger] vals[i].1)) == Ordering::Less by {
                                let ki = key_of(extractor, vals[i].1);
                                if i < m {
                                    assert(km.cmp_spec(&ki) == Ordering::Less);
                                } else if i > m {
                                    assert(km.cmp_spec(&ki) != Ordering::Greater);
                                    if km.cmp_spec(&ki) == Ordering::Equal {
                                        assert(km == ki);
                                    }
                                }
                            }
                            m = idx;
                        }
                        Some((value, key))
                    } else {
                        proof {
                            let km = key_of(extractor, vals[m].1);
                            assert(km.cmp_spec(&key) != Ordering::Greater) by {
                                if key.cmp_spec(&km) == Ordering::Equal {
                                    assert(key == km);
                                }
                            }
                        }
                        Some((min_value, min_key))
                    }
                },
            };
        }
        let (min_value, _) = min.unwrap();
        proof {
            assert(vals =~= success_entries(s));
            assert(is_first_min(vals, extractor, m));
            let v = verdict_view(Ok::<T, MultiCallError<T>>(min_value));
            assert(v == Ok::<T, MultiCallErrorView<T>>(vals[m].1));
            assert(is_min_by_key(vals, extractor, v));
        }
        Ok(min_value)
    }
}

/// A client for the JSON-RPC providers of the network that the minter is
/// connected to.
#[derive(Clone, Copy, Debug, PartialEq, Eq, Structural)]
pub struct EthRpcClient {
    chain: EthereumNetwork,
}

/// The providers and the outcomes that they gave, paired in order.
pub open spec fn paired<T>(providers: Seq<RpcNodeProvider>, outcomes: Seq<HttpOutcallResult<JsonRpcResult<T>>>) -> Seq<(RpcNodeProvider, HttpOutcallResult<JsonRpcResult<T>>)> {
    Seq::new(outcomes.len(), |i: int| (providers[i], outcomes[i]))
}

impl EthRpcClient {
    pub closed spec fn spec_chain(self) -> EthereumNetwork {
        self.chain
    }

    fn new(chain: EthereumNetwork) -> (r: Self)
        ensures
            r.spec_chain() == chain,
    {
        Self { chain }
    }

    /// A client for the network that `state` selects.
    pub fn from_state(state: &State) -> (r: Self)
        ensures
            r.spec_chain() == state.spec_ethereum_network(),
    {
        Self::new(state.ethereum_network())
    }

    /// The providers to query, in order, without repetition.
    pub fn providers(&self) -> (r: Vec<RpcNodeProvider>)
        ensures
            r@ == network_providers(self.spec_chain()),
            r@.len() > 0,
            r@.no_duplicates(),
    {
        providers_of(self.chain)
    }

    /// Collects the outcomes of a query sent to every provider at once; the
    /// `i`-th outcome is the answer of the `i`-th provider.
    pub fn parallel_call_results<T>(&self, results: Vec<HttpOutcallResult<JsonRpcResult<T>>>) -> (r: MultiCallResults<T>)
        requires
            results@.len() == network_providers(self.spec_chain()).len(),
        ensures
            r@ == paired(network_providers(self.spec_chain()), results@),
    {
        let providers = self.providers();
        let ghost outcomes = results@;
        let mut entries: Vec<(RpcNodeProvider, HttpOutcallResult<JsonRpcResult<T>>)> = Vec::new();
        let mut i: usize = 0;
        for result in it: results.into_iter()
            invariant
                it.seq() == outcomes,
                i == it.index(),
                providers@.len() == outcomes.len(),
                providers@ == network_providers(self.spec_chain()),
                entries@ =~= paired(providers@, outcomes.subrange(0, it.index() as int)),
        {
            let provider = providers[i];
            entries.push((provider, result));
            proof {
                assert(entries@ =~= paired(providers@, outcomes.subrange(0, i + 1)));
            }
            i += 1;
        }
        proof {
            assert(outcomes.subrange(0, outcomes.len() as int) =~= outcomes);
        }
        let r = MultiCallResults::from_non_empty_iter(entries);
        proof {
            let expected = paired(providers@, outcomes);
            assert(strictly_ordered(expected)) by {
                assert forall|a: int, b: int| 0 <= a < b < expected.len() implies #[trigger] expected[a].0.spec_rank() < #[trigger] expected[b].0.spec_rank() by {
                    assert(expected[a].0 == providers@[a] && expected[b].0 == providers@[b]);
                }
            }
            lemma_ordered_entries_determined(r@, expected);
        }
        r
    }
}

/// The verdict is a function of the outcomes alone: whatever order the
/// outcomes of the providers, one per provider, were collected in, the
/// outcome set is the same, and so are its classification and its
/// reductions.
pub proof fn lemma_verdict_independent_of_order<T>(
    a: Seq<(RpcNodeProvider, HttpOutcallResult<JsonRpcResult<T>>)>,
    b: Seq<(RpcNodeProvider, HttpOutcallResult<JsonRpcResult<T>>)>,
    set_a: Seq<(RpcNodeProvider, HttpOutcallResult<JsonRpcResult<T>>)>,
    set_b: Seq<(RpcNodeProvider, HttpOutcallResult<JsonRpcResult<T>>)>,
)
    requires
        keys_unique(a),
        keys_unique(b),
        a.to_set() == b.to_set(),
        strictly_ordered(set_a),
        entries_map(set_a) == entries_map(a),
        strictly_ordered(set_b),
        entries_map(set_b) == entries_map(b),
    ensures
        set_a == set_b,
        classify(set_a) == classify(set_b),
        reduce_by_equality(set_a) == reduce_by_equality(set_b),
{
    lemma_entries_map_unique(a);
    lemma_entries_map_unique(b);
    assert forall|p: RpcNodeProvider| entries_map(a).contains_key(p) implies entries_map(b).contains_key(p) && entries_map(a)[p] == entries_map(b)[p] by {
        let i = choose|i: int| 0 <= i < a.len() && a[i].0 == p;
        assert(a.to_set().contains(a[i]));
        let j = choose|j: int| 0 <= j < b.len() && b[j] == a[i];
        assert(0 <= j < b.len() && b[j].0 == p);
        assert(entries_map(b)[b[j].0] == b[j].1);
        assert(entries_map(a)[a[i].0] == a[i].1);
    }
    assert forall|p: RpcNodeProvider| entries_map(b).contains_key(p) implies entries_map(a).contains_key(p) by {
        let j = choose|j: int| 0 <= j < b.len() && b[j].0 == p;
        assert(b.to_set().contains(b[j]));
        let i = choose|i: int| 0 <= i < a.len() && a[i] == b[j];
        assert(0 <= i < a.len() && a[i].0 == p);
    }
    assert(entries_map(a) =~= entries_map(b));
    lemma_ordered_entries_determined(set_a, set_b);
}

proof fn lemma_all_success_classifies_ok<T>(s: Seq<(RpcNodeProvider, HttpOutcallResult<JsonRpcResult<T>>)>)
    requires
        forall|k: int| 0 <= k < s.len() ==> is_success(#[trigger] s[k].1),
    ensures
        classify(s) == Ok::<Seq<(RpcNodeProvider, T)>, MultiCallErrorView<T>>(success_entries(s)),
{
    lemma_first_failure_bounds(s, 0);
}

/// When every provider answers with the same value, reduction by equality
/// agrees on that value.
pub proof fn lemma_unanimous_value_is_agreed<T>(s: Seq<(RpcNodeProvider, HttpOutcallResult<JsonRpcResult<T>>)>, v: T)
    requires
        s.len() > 0,
        forall|k: int| 0 <= k < s.len() ==> (#[trigger] s[k]).1 == Ok::<JsonRpcResult<T>, HttpOutcallError>(JsonRpcResult::Result(v)),
    ensures
        reduce_by_equality(s) == Ok::<T, MultiCallErrorView<T>>(v),
{
    assert forall|k: int| 0 <= k < s.len() implies is_success(#[trigger] s[k].1) by {
        assert(s[k].1 == Ok::<JsonRpcResult<T>, HttpOutcallError>(JsonRpcResult::Result(v)));
    }
    lemma_all_success_classifies_ok(s);
    let vals = success_entries(s);
    let rest = vals.subrange(1, vals.len() as int);
    lemma_entries_differing(rest, vals[0].1);
    if entries_differing(rest, vals[0].1).len() > 0 {
        let d = entries_differing(rest, vals[0].1);
        let k = choose|k: int| 0 <= k < rest.len() && rest[k] == #[trigger] d[0];
        assert(rest[k] == vals[k + 1]);
        assert(s[k + 1].1 == Ok::<JsonRpcResult<T>, HttpOutcallError>(JsonRpcResult::Result(v)));
        assert(s[0].1 == Ok::<JsonRpcResult<T>, HttpOutcallError>(JsonRpcResult::Result(v)));
    }
}

/// When every provider succeeds but two values differ, reduction by
/// equality reports inconsistent results, with at least two and at most
/// all of the providers as evidence.
pub proof fn lemma_divergent_values_are_inconsistent<T>(
    s: Seq<(RpcNodeProvider, HttpOutcallResult<JsonRpcResult<T>>)>,
    i: int,
    j: int,
)
    requires
        forall|k: int| 0 <= k < s.len() ==> is_success(#[trigger] s[k].1),
        0 <= i < s.len(),
        0 <= j < s.len(),
        success_value(s[i].1) != success_value(s[j].1),
    ensures
        reduce_by_equality(s) matches Err(MultiCallErrorView::InconsistentResults(evidence))
            && 2 <= evidence.len() <= s.len(),
{
    lemma_all_success_classifies_ok(s);
    let vals = success_entries(s);
    let rest = vals.subrange(1, vals.len() as int);
    let base = vals[0].1;
    lemma_entries_differing(rest, base);
    if entries_differing(rest, base).len() == 0 {
        assert forall|k: int| 0 <= k < s.len() implies success_value(#[trigger] s[k].1) == base by {
            if k > 0 {
                assert(rest[k - 1] == vals[k]);
            }
        }
        assert(success_value(s[i].1) == base);
        assert(success_value(s[j].1) == base);
    }
}

} // verus!
