//! Aggregation of per-lane results.
//!
//! Once every lane's engine has drained, the collector owns one snapshot
//! vector per lane. Lanes partition the client-id space, so the vectors
//! are disjoint by construction and merging is pure concatenation, in
//! lane order, with no conflicts to resolve.

use vstd::prelude::*;
use vstd::multiset::Multiset;
use crate::account::ClientState;

verus! {

broadcast use vstd::seq_lib::group_to_multiset_ensures;

/// Snapshots ordered by client id: the deterministic output order the
/// result sink renders when reproducibility matters.
pub open spec fn sorted_by_client(s: Seq<ClientState>) -> bool {
    forall|a: int, b: int| 0 <= a < b < s.len() ==> #[trigger] s[a].client <= #[trigger] s[b].client
}

/// Orders the merged snapshots by client id. The result holds exactly
/// the given snapshots (as a multiset), ascending by client: with this,
/// two runs over the same input render identical output, whatever order
/// the lanes drained in.
pub fn sort_states_by_client(states: &Vec<ClientState>) -> (sorted: Vec<ClientState>)
    ensures
        sorted@.to_multiset() == states@.to_multiset(),
        sorted_by_client(sorted@),
{
    let mut sorted: Vec<ClientState> = Vec::new();
    proof {
        assert(states@.take(0) =~= Seq::<ClientState>::empty());
        assert(Seq::<ClientState>::empty().to_multiset() =~= Multiset::<ClientState>::empty());
    }
    let n = states.len();
    for i in 0..n
        invariant
            n == states@.len(),
            sorted@.to_multiset() == states@.take(i as int).to_multiset(),
            sorted_by_client(sorted@),
    {
        let next = states[i];
        let mut j: usize = 0;
        while j < sorted.len() && sorted[j].client <= next.client
            invariant
                j <= sorted@.len(),
                sorted_by_client(sorted@),
                forall|k: int| 0 <= k < j ==> #[trigger] sorted@[k].client <= next.client,
            decreases sorted@.len() - j,
        {
            j += 1;
        }
        let ghost before = sorted@;
        sorted.insert(j, next);
        proof {
            assert(states@.take(i + 1) =~= states@.take(i as int).push(states@[i as int]));
            assert(states@.take(i + 1).to_multiset() =~= states@.take(
                i as int,
            ).to_multiset().insert(next));
            assert(sorted@.to_multiset() =~= before.to_multiset().insert(next));
            assert forall|a: int, b: int|
                0 <= a < b < sorted@.len() implies #[trigger] sorted@[a].client
                <= #[trigger] sorted@[b].client by {
                if a < j && b > j {
                    assert(sorted@[a] == before[a]);
                    assert(sorted@[b] == before[b - 1]);
                }
            }
        }
    }
    proof {
        assert(states@.take(n as int) =~= states@);
    }
    sorted
}

/// The sequence of snapshots a merged lane collection denotes: every
/// lane's snapshots, in lane order.
pub open spec fn merged_states(lanes: Seq<Vec<ClientState>>) -> Seq<ClientState> {
    lanes.flat_map(|lane: Vec<ClientState>| lane@)
}

/// Merges the finished lanes' snapshot vectors into the single collection
/// the result sink renders: exactly the concatenation of the lanes, in
/// order.
pub fn merge_lane_states(lanes: &Vec<Vec<ClientState>>) -> (merged: Vec<ClientState>)
    ensures
        merged@ == merged_states(lanes@),
{
    broadcast use vstd::prelude::Seq::lemma_flat_map_take_append;

    let ghost f = |lane: Vec<ClientState>| lane@;
    let mut merged: Vec<ClientState> = Vec::new();
    proof {
        assert(lanes@.take(0).flat_map(f) =~= Seq::<ClientState>::empty());
    }
    let n = lanes.len();
    for i in 0..n
        invariant
            n == lanes@.len(),
            f == (|lane: Vec<ClientState>| lane@),
            merged@ == lanes@.take(i as int).flat_map(f),
    {
        let lane_len = lanes[i].len();
        for j in 0..lane_len
            invariant
                n == lanes@.len(),
                i < n,
                f == (|lane: Vec<ClientState>| lane@),
                lane_len == lanes@[i as int]@.len(),
                merged@ == lanes@.take(i as int).flat_map(f) + lanes@[i as int]@.take(j as int),
        {
            merged.push(lanes[i][j]);
            proof {
                assert(lanes@[i as int]@.take(j + 1) =~= lanes@[i as int]@.take(j as int).push(
                    lanes@[i as int]@[j as int],
                ));
                assert(merged@ =~= lanes@.take(i as int).flat_map(f) + lanes@[i as int]@.take(
                    j + 1,
                ));
            }
        }
        proof {
            assert(lanes@[i as int]@.take(lane_len as int) =~= lanes@[i as int]@);
            lanes@.lemma_flat_map_take_append(f, i as int);
            assert(f(lanes@[i as int]) == lanes@[i as int]@);
            assert(merged@ =~= lanes@.take(i + 1).flat_map(f));
        }
    }
    proof {
        assert(lanes@.take(n as int) =~= lanes@);
    }
    merged
}

} // verus!
