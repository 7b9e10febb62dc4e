//! Sequences of (provider, value) entries read as ordered maps.

use vstd::prelude::*;
use crate::providers::RpcNodeProvider;

verus! {

/// Providers strictly increase along the entries.
pub open spec fn strictly_ordered<V>(s: Seq<(RpcNodeProvider, V)>) -> bool {
    forall|i: int, j: int|
        0 <= i < j < s.len() ==> #[trigger] s[i].0.spec_rank() < #[trigger] s[j].0.spec_rank()
}

/// No key occurs twice among the entries.
pub open spec fn keys_unique<K, V>(s: Seq<(K, V)>) -> bool {
    forall|i: int, j: int| 0 <= i < s.len() && 0 <= j < s.len() && i != j ==> #[trigger] s[i].0 != #[trigger] s[j].0
}

/// The map that inserting the entries in order yields: a later entry for a
/// key replaces an earlier one.
pub open spec fn entries_map<K, V>(s: Seq<(K, V)>) -> Map<K, V>
    decreases s.len(),
{
    if s.len() == 0 {
        Map::empty()
    } else {
        entries_map(s.drop_last()).insert(s.last().0, s.last().1)
    }
}

/// Entries with distinct keys are exactly the map's contents.
pub proof fn lemma_entries_map_unique<K, V>(s: Seq<(K, V)>)
    requires
        keys_unique(s),
    ensures
        forall|p: K|
            entries_map(s).contains_key(p) <==> exists|i: int| 0 <= i < s.len() && s[i].0 == p,
        forall|i: int| 0 <= i < s.len() ==> entries_map(s)[#[trigger] s[i].0] == s[i].1,
    decreases s.len(),
{
    if s.len() > 0 {
        let t = s.drop_last();
        assert(keys_unique(t));
        lemma_entries_map_unique(t);
        assert forall|p: K|
            entries_map(s).contains_key(p) implies exists|i: int| 0 <= i < s.len() && s[i].0 == p by {
            if p != s.last().0 {
                assert(entries_map(t).contains_key(p));
                let i = choose|i: int| 0 <= i < t.len() && t[i].0 == p;
                assert(t[i] == s[i]);
            } else {
                assert(s[s.len() - 1].0 == p);
            }
        }
        assert forall|p: K|
            (exists|i: int| 0 <= i < s.len() && s[i].0 == p) implies entries_map(s).contains_key(p) by {
            let i = choose|i: int| 0 <= i < s.len() && s[i].0 == p;
            if i < s.len() - 1 {
                assert(t.len() == s.len() - 1);
                assert(t[i] == s[i]);
            }
        }
        assert forall|i: int| 0 <= i < s.len() implies entries_map(s)[#[trigger] s[i].0] == s[i].1 by {
            if i < s.len() - 1 {
                assert(t[i] == s[i]);
                assert(s[i].0 != s[s.len() - 1].0);
            }
        }
    }
}

/// Strictly ordered entries name each provider once.
pub proof fn lemma_ordered_unique<V>(s: Seq<(RpcNodeProvider, V)>)
    requires
        strictly_ordered(s),
    ensures
        keys_unique(s),
{
    assert forall|i: int, j: int| 0 <= i < s.len() && 0 <= j < s.len() && i != j implies #[trigger] s[i].0 != #[trigger] s[j].0 by {
        if i < j {
            assert(s[i].0.spec_rank() < s[j].0.spec_rank());
        } else {
            assert(s[j].0.spec_rank() < s[i].0.spec_rank());
        }
    }
}

/// Two strictly ordered entry sequences with the same map are equal.
pub proof fn lemma_ordered_entries_determined<V>(a: Seq<(RpcNodeProvider, V)>, b: Seq<(RpcNodeProvider, V)>)
    requires
        strictly_ordered(a),
        strictly_ordered(b),
        entries_map(a) == entries_map(b),
    ensures
        a == b,
    decreases a.len() + b.len(),
{
    lemma_ordered_unique(a);
    lemma_ordered_unique(b);
    lemma_entries_map_unique(a);
    lemma_entries_map_unique(b);
    if a.len() == 0 || b.len() == 0 {
        if a.len() > 0 {
            assert(entries_map(a).contains_key(a[0].0));
        }
        if b.len() > 0 {
            assert(entries_map(b).contains_key(b[0].0));
        }
        assert(a =~= b);
    } else {
        let la = a.last();
        let lb = b.last();
        // the last entry of each holds the largest provider of the common key set
        assert(entries_map(b).contains_key(la.0));
        let j = choose|j: int| 0 <= j < b.len() && b[j].0 == la.0;
        assert(entries_map(a).contains_key(lb.0));
        let i = choose|i: int| 0 <= i < a.len() && a[i].0 == lb.0;
        if j < b.len() - 1 {
            assert(b[j].0.spec_rank() < lb.0.spec_rank());
            assert(a[i].0.spec_rank() <= la.0.spec_rank()) by {
                if i < a.len() - 1 {
                    assert(a[i].0.spec_rank() < a[a.len() - 1].0.spec_rank());
                }
            }
            assert(false);
        }
        assert(la.0 == lb.0);
        assert(entries_map(a)[la.0] == la.1);
        assert(entries_map(b)[lb.0] == lb.1);
        let ta = a.drop_last();
        let tb = b.drop_last();
        lemma_ordered_unique(ta);
        lemma_ordered_unique(tb);
        lemma_entries_map_unique(ta);
        lemma_entries_map_unique(tb);
        assert(entries_map(ta) =~= entries_map(tb)) by {
            assert forall|p: RpcNodeProvider| entries_map(ta).contains_key(p) implies entries_map(tb).contains_key(p) && entries_map(ta)[p] == entries_map(tb)[p] by {
                let k = choose|k: int| 0 <= k < ta.len() && ta[k].0 == p;
                assert(a[k] == ta[k]);
                assert(p != la.0);
                assert(entries_map(b).contains_key(p));
                let m = choose|m: int| 0 <= m < b.len() && b[m].0 == p;
                assert(m != b.len() - 1);
                assert(tb[m] == b[m]);
                assert(entries_map(tb)[tb[m].0] == tb[m].1);
                assert(entries_map(b)[b[m].0] == b[m].1);
                assert(entries_map(a)[a[k].0] == a[k].1);
            }
            assert forall|p: RpcNodeProvider| entries_map(tb).contains_key(p) implies entries_map(ta).contains_key(p) by {
                let k = choose|k: int| 0 <= k < tb.len() && tb[k].0 == p;
                assert(b[k] == tb[k]);
                assert(p != lb.0);
                assert(entries_map(a).contains_key(p));
                let m = choose|m: int| 0 <= m < a.len() && a[m].0 == p;
                assert(m != a.len() - 1);
                assert(ta[m] == a[m]);
            }
        }
        lemma_ordered_entries_determined(ta, tb);
        assert(a =~= ta.push(la));
        assert(b =~= tb.push(lb));
    }
}

} // verus!
