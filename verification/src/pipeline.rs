//! Correctness of the sharded pipeline.
//!
//! The pipeline splits the record stream over N lanes by client id and
//! runs one engine per lane. The theorems here justify that design: an
//! account's final state depends only on its own client's records, in
//! their original order ([`lemma_processing_respects_clients`]); a lane
//! receives exactly those records for each of its clients
//! ([`lemma_lane_keeps_client_records`]); and therefore the sharded run
//! computes, for every client, exactly what a single sequential engine
//! over the whole stream computes, for any lane count
//! ([`lemma_sharding_is_transparent`]) — so two runs over the same input
//! agree whatever their lane counts ([`lemma_pipeline_deterministic`]).

use vstd::prelude::*;
use crate::account::{state_of, AccountModel, ClientState};
use crate::engine::{account_or_initial, process_seq_spec};
use crate::partition::spec_lane_of;
use crate::record::Transaction;

verus! {

/// The subsequence of `s` carrying client `client`'s records, in their
/// original relative order.
pub open spec fn client_records(s: Seq<Transaction>, client: u16) -> Seq<Transaction>
    decreases s.len(),
{
    if s.len() == 0 {
        Seq::empty()
    } else {
        let rest = client_records(s.drop_last(), client);
        if s.last().client == client {
            rest.push(s.last())
        } else {
            rest
        }
    }
}

/// The subsequence of `s` the partitioner routes to lane `lane` of
/// `lane_count`, in its original relative order.
pub open spec fn lane_records(s: Seq<Transaction>, lane_count: usize, lane: int) -> Seq<
    Transaction,
>
    decreases s.len(),
{
    if s.len() == 0 {
        Seq::empty()
    } else {
        let rest = lane_records(s.drop_last(), lane_count, lane);
        if spec_lane_of(s.last().client, lane_count) == lane {
            rest.push(s.last())
        } else {
            rest
        }
    }
}

/// The account map one engine derives from a record sequence, starting
/// from no accounts.
pub open spec fn run_spec(s: Seq<Transaction>) -> Map<u16, AccountModel> {
    process_seq_spec(s, Map::empty())
}

/// The final account the sharded pipeline with `lane_count` lanes yields
/// for `client`: the account its lane's engine holds after consuming that
/// lane's records.
pub open spec fn pipeline_account(
    s: Seq<Transaction>,
    lane_count: usize,
    client: u16,
) -> AccountModel {
    account_or_initial(
        run_spec(lane_records(s, lane_count, spec_lane_of(client, lane_count))),
        client,
    )
}

/// An engine touches a client's account only through that client's own
/// records: dropping every other record from its input leaves the
/// client's final account unchanged.
pub proof fn lemma_processing_respects_clients(
    s: Seq<Transaction>,
    accounts: Map<u16, AccountModel>,
    client: u16,
)
    ensures
        account_or_initial(process_seq_spec(s, accounts), client) == account_or_initial(
            process_seq_spec(client_records(s, client), accounts),
            client,
        ),
    decreases s.len(),
{
    if s.len() > 0 {
        let t = s.last();
        lemma_processing_respects_clients(s.drop_last(), accounts, client);
        if t.client == client {
            let restricted = client_records(s, client);
            assert(restricted.drop_last() =~= client_records(s.drop_last(), client));
            assert(restricted.last() == t);
        }
    }
}

/// Within its lane's stream, a client's records are exactly its records
/// in the whole stream, in the same relative order: the partitioner
/// neither drops, duplicates nor reorders them.
pub proof fn lemma_lane_keeps_client_records(s: Seq<Transaction>, lane_count: usize, client: u16)
    ensures
        client_records(
            lane_records(s, lane_count, spec_lane_of(client, lane_count)),
            client,
        ) == client_records(s, client),
    decreases s.len(),
{
    let lane = spec_lane_of(client, lane_count);
    if s.len() > 0 {
        let t = s.last();
        lemma_lane_keeps_client_records(s.drop_last(), lane_count, client);
        if spec_lane_of(t.client, lane_count) == lane {
            let routed = lane_records(s, lane_count, lane);
            assert(routed.drop_last() =~= lane_records(s.drop_last(), lane_count, lane));
            assert(routed.last() == t);
        }
    }
}

/// Sharding is transparent: for every client and any lane count, the
/// account its lane's engine ends with equals the account a single
/// sequential engine over the whole stream ends with.
pub proof fn lemma_sharding_is_transparent(s: Seq<Transaction>, lane_count: usize, client: u16)
    ensures
        pipeline_account(s, lane_count, client) == account_or_initial(run_spec(s), client),
{
    let lane = spec_lane_of(client, lane_count);
    lemma_processing_respects_clients(lane_records(s, lane_count, lane), Map::empty(), client);
    lemma_lane_keeps_client_records(s, lane_count, client);
    lemma_processing_respects_clients(s, Map::empty(), client);
}

/// Every record a lane receives is routed there by the partitioner: its
/// client reduces to that lane.
pub proof fn lemma_lane_records_routed(s: Seq<Transaction>, lane_count: usize, lane: int, i: int)
    requires
        0 <= i < lane_records(s, lane_count, lane).len(),
    ensures
        spec_lane_of(lane_records(s, lane_count, lane)[i].client, lane_count) == lane,
    decreases s.len(),
{
    if s.len() > 0 {
        let rest = lane_records(s.drop_last(), lane_count, lane);
        if spec_lane_of(s.last().client, lane_count) == lane && i == rest.len() {
        } else {
            lemma_lane_records_routed(s.drop_last(), lane_count, lane, i);
        }
    }
}

/// Two distinct lanes never drain the same client: the union the
/// aggregator takes has no conflicts to resolve, by construction rather
/// than by checking.
pub proof fn lemma_lanes_drain_disjoint_clients(
    s: Seq<Transaction>,
    lane_count: usize,
    lane_a: int,
    lane_b: int,
    client: u16,
)
    requires
        lane_a != lane_b,
    ensures
        !(crate::engine::order_after(
            lane_records(s, lane_count, lane_a),
            Seq::empty(),
        ).contains(client) && crate::engine::order_after(
            lane_records(s, lane_count, lane_b),
            Seq::empty(),
        ).contains(client)),
{
    let routed_a = lane_records(s, lane_count, lane_a);
    let routed_b = lane_records(s, lane_count, lane_b);
    if crate::engine::order_after(routed_a, Seq::empty()).contains(client)
        && crate::engine::order_after(routed_b, Seq::empty()).contains(client) {
        crate::engine::lemma_order_after_membership(routed_a, Seq::empty(), client);
        crate::engine::lemma_order_after_membership(routed_b, Seq::empty(), client);
        let i_a = choose|i: int| 0 <= i < routed_a.len() && #[trigger] routed_a[i].client == client;
        let i_b = choose|i: int| 0 <= i < routed_b.len() && #[trigger] routed_b[i].client == client;
        lemma_lane_records_routed(s, lane_count, lane_a, i_a);
        lemma_lane_records_routed(s, lane_count, lane_b, i_b);
        assert(false);
    }
}

/// Re-running the pipeline over a fixed, finite input yields the same
/// final account for every client, even across different lane counts:
/// the output is a function of the input stream alone.
pub proof fn lemma_pipeline_deterministic(
    s: Seq<Transaction>,
    lane_count_a: usize,
    lane_count_b: usize,
    client: u16,
)
    ensures
        pipeline_account(s, lane_count_a, client) == pipeline_account(s, lane_count_b, client),
{
    lemma_sharding_is_transparent(s, lane_count_a, client);
    lemma_sharding_is_transparent(s, lane_count_b, client);
}

/// Whether any record of the stream names this client: exactly the
/// clients that end up with an account, and a row in the output.
pub open spec fn references_client(s: Seq<Transaction>, client: u16) -> bool {
    exists|i: int| 0 <= i < s.len() && #[trigger] s[i].client == client
}

/// The set of final client-state snapshots a pipeline run produces: one
/// per referenced client, drawn from that client's final account.
pub open spec fn pipeline_states(s: Seq<Transaction>, lane_count: usize) -> Set<ClientState> {
    Set::new(
        |snapshot: ClientState|
            exists|c: u16|
                #[trigger] references_client(s, c) && snapshot == state_of(
                    pipeline_account(s, lane_count, c),
                ),
    )
}

/// Running the full pipeline over a fixed, finite input yields the same
/// set of final client states, order aside, however often it is re-run
/// and whatever lane count each run uses.
pub proof fn lemma_pipeline_state_sets_identical(
    s: Seq<Transaction>,
    lane_count_a: usize,
    lane_count_b: usize,
)
    ensures
        pipeline_states(s, lane_count_a) == pipeline_states(s, lane_count_b),
{
    assert forall|snapshot: ClientState|
        pipeline_states(s, lane_count_a).contains(snapshot) implies pipeline_states(
        s,
        lane_count_b,
    ).contains(snapshot) by {
        let c = choose|c: u16|
            #[trigger] references_client(s, c) && snapshot == state_of(
                pipeline_account(s, lane_count_a, c),
            );
        lemma_pipeline_deterministic(s, lane_count_a, lane_count_b, c);
        assert(references_client(s, c) && snapshot == state_of(
            pipeline_account(s, lane_count_b, c),
        ));
    }
    assert forall|snapshot: ClientState|
        pipeline_states(s, lane_count_b).contains(snapshot) implies pipeline_states(
        s,
        lane_count_a,
    ).contains(snapshot) by {
        let c = choose|c: u16|
            #[trigger] references_client(s, c) && snapshot == state_of(
                pipeline_account(s, lane_count_b, c),
            );
        lemma_pipeline_deterministic(s, lane_count_a, lane_count_b, c);
        assert(references_client(s, c) && snapshot == state_of(
            pipeline_account(s, lane_count_a, c),
        ));
    }
    assert(pipeline_states(s, lane_count_a) =~= pipeline_states(s, lane_count_b));
}

} // verus!
