//! The account state engine that one lane runs: a private map from client
//! id to [`ClientAccount`], fed the lane's records in order and drained
//! into [`ClientState`] snapshots once the stream is exhausted.

use vstd::prelude::*;
use vstd::hash_map::HashMapWithView;
use crate::account::{
    AccountModel, ClientAccount, ClientState, account_wf, apply_spec, initial_account, state_of,
};
use crate::record::Transaction;

verus! {

broadcast use {vstd::std_specs::hash::group_hash_axioms, vstd::seq_lib::group_seq_properties};

/// The account a map holds for `client`, counting a client never seen
/// before as owning a fresh initial account.
pub open spec fn account_or_initial(accounts: Map<u16, AccountModel>, client: u16) -> AccountModel {
    if accounts.dom().contains(client) {
        accounts[client]
    } else {
        initial_account(client)
    }
}

/// The effect of one record on an engine's account map: the record's
/// client is looked up (or created), and the account steps by
/// [`apply_spec`]. Only that one key changes.
pub open spec fn process_one_spec(
    accounts: Map<u16, AccountModel>,
    t: Transaction,
) -> Map<u16, AccountModel> {
    accounts.insert(t.client, apply_spec(account_or_initial(accounts, t.client), t))
}

/// The effect of a whole record sequence on an engine's account map,
/// processed strictly in order.
pub open spec fn process_seq_spec(
    s: Seq<Transaction>,
    accounts: Map<u16, AccountModel>,
) -> Map<u16, AccountModel>
    decreases s.len(),
{
    if s.len() == 0 {
        accounts
    } else {
        process_one_spec(process_seq_spec(s.drop_last(), accounts), s.last())
    }
}

/// All accounts of a map satisfy the account invariant: held funds
/// nonnegative, disputes only on settled transactions.
pub open spec fn accounts_wf(accounts: Map<u16, AccountModel>) -> bool {
    forall|c: u16| #[trigger] accounts.dom().contains(c) ==> account_wf(accounts[c])
}

/// The account invariant holds for every account at every point of a
/// run: processing any record sequence over a well-formed account map
/// leaves every account well-formed, and every prefix of the sequence is
/// itself such a run.
pub proof fn lemma_process_seq_preserves_invariant(
    s: Seq<Transaction>,
    accounts: Map<u16, AccountModel>,
)
    requires
        accounts_wf(accounts),
    ensures
        accounts_wf(process_seq_spec(s, accounts)),
    decreases s.len(),
{
    if s.len() > 0 {
        lemma_process_seq_preserves_invariant(s.drop_last(), accounts);
        let mid = process_seq_spec(s.drop_last(), accounts);
        let t = s.last();
        crate::account::lemma_apply_preserves_invariant(account_or_initial(mid, t.client), t);
    }
}

/// The drain order an engine ends with after processing `s`, having
/// started with the clients of `ord` already present: each record's
/// client is appended on its first reference.
pub open spec fn order_after(s: Seq<Transaction>, ord: Seq<u16>) -> Seq<u16>
    decreases s.len(),
{
    if s.len() == 0 {
        ord
    } else {
        let prev = order_after(s.drop_last(), ord);
        if prev.contains(s.last().client) {
            prev
        } else {
            prev.push(s.last().client)
        }
    }
}

/// An engine drains exactly the clients referenced by its input: a
/// client is in the drain order iff it was there at the start or some
/// record of the sequence names it.
pub proof fn lemma_order_after_membership(s: Seq<Transaction>, ord: Seq<u16>, client: u16)
    ensures
        order_after(s, ord).contains(client) <==> (ord.contains(client) || exists|i: int|
            0 <= i < s.len() && #[trigger] s[i].client == client),
    decreases s.len(),
{
    broadcast use vstd::seq_lib::group_seq_properties;

    if s.len() > 0 {
        lemma_order_after_membership(s.drop_last(), ord, client);
        let prev = order_after(s.drop_last(), ord);
        if order_after(s, ord).contains(client) {
            if !prev.contains(client) {
                assert(s[s.len() - 1].client == client);
            } else {
                if !ord.contains(client) {
                    let i = choose|i: int|
                        0 <= i < s.drop_last().len() && #[trigger] s.drop_last()[i].client
                            == client;
                    assert(s[i].client == client);
                }
            }
        } else {
            if exists|i: int| 0 <= i < s.len() && #[trigger] s[i].client == client {
                let i = choose|i: int| 0 <= i < s.len() && #[trigger] s[i].client == client;
                if i < s.len() - 1 {
                    assert(s.drop_last()[i].client == client);
                } else {
                    assert(prev.contains(client) || order_after(s, ord) == prev.push(client));
                }
                assert(false);
            }
        }
    }
}

/// One lane's private collection of client accounts. Clients appear in
/// `order` once each, in order of first reference, which makes the drain
/// order a function of the lane's input alone.
pub struct ClientAccounts {
    accounts: HashMapWithView<u16, ClientAccount>,
    order: Vec<u16>,
}

impl View for ClientAccounts {
    type V = Map<u16, AccountModel>;

    closed spec fn view(&self) -> Map<u16, AccountModel> {
        self.accounts@.map_values(|account: ClientAccount| account@)
    }
}

impl ClientAccounts {
    /// Internal consistency: the order list names each mapped client
    /// exactly once, every account sits under its own client id, and
    /// every account satisfies the balance invariant.
    pub closed spec fn wf(self) -> bool {
        &&& self.order@.no_duplicates()
        &&& self.order@.to_set() == self.accounts@.dom()
        &&& forall|c: u16|
            #[trigger] self.accounts@.dom().contains(c) ==> self.accounts@[c]@.client == c
                && account_wf(self.accounts@[c]@)
    }

    /// The clients of this engine, in order of first reference.
    pub closed spec fn order_seq(self) -> Seq<u16> {
        self.order@
    }

    /// Creates an engine that has seen no records.
    pub fn new() -> (engine: Self)
        ensures
            engine@ == Map::<u16, AccountModel>::empty(),
            engine.order_seq() == Seq::<u16>::empty(),
            engine.wf(),
    {
        let engine = ClientAccounts { accounts: HashMapWithView::new(), order: Vec::new() };
        proof {
            assert(engine@ =~= Map::<u16, AccountModel>::empty());
            assert(engine.order@.to_set() =~= engine.accounts@.dom());
        }
        engine
    }

    /// Drains the engine once its lane is exhausted: one snapshot per
    /// client, in order of first reference. A client missing from the map
    /// is skipped defensively; a well-formed engine skips nobody.
    pub fn final_states(self) -> (states: Vec<ClientState>)
        ensures
            self.wf() ==> {
                &&& states@.len() == self.order_seq().len()
                &&& forall|i: int|
                    0 <= i < states@.len() ==> states@[i] == state_of(
                        self@[self.order_seq()[i]],
                    )
            },
    {
        let ghost initial_map = self.accounts@;
        let ghost ord = self.order@;
        let ghost w = self.wf();
        let ClientAccounts { mut accounts, order } = self;
        let mut states: Vec<ClientState> = Vec::new();
        let n = order.len();
        proof {
            if w {
                assert forall|j: int| 0 <= j < ord.len() implies #[trigger] accounts@.dom().contains(
                    ord[j],
                ) by {
                    assert(ord.contains(ord[j]));
                    assert(ord.to_set().contains(ord[j]));
                }
            }
        }
        for i in 0..n
            invariant
                n == ord.len(),
                order@ == ord,
                states@.len() <= i,
                w ==> ord.no_duplicates(),
                w ==> {
                    &&& states@.len() == i
                    &&& forall|j: int|
                        i <= j < ord.len() ==> #[trigger] accounts@.dom().contains(ord[j])
                            && accounts@[ord[j]] == initial_map[ord[j]]
                    &&& forall|j: int|
                        0 <= j < i ==> states@[j] == state_of(initial_map[ord[j]]@)
                },
        {
            let client = order[i];
            match accounts.remove(&client) {
                Some(account) => {
                    states.push(ClientState::from(account));
                },
                None => {},
            }
            proof {
                if w {
                    assert(ord.no_duplicates());
                    assert forall|j: int|
                        i + 1 <= j < ord.len() implies #[trigger] accounts@.dom().contains(ord[j])
                        && accounts@[ord[j]] == initial_map[ord[j]] by {
                        assert(ord[j] != ord[i as int]);
                    }
                }
            }
        }
        proof {
            if w {
                assert forall|i: int| 0 <= i < states@.len() implies states@[i] == state_of(
                    self@[self.order_seq()[i]],
                ) by {
                    assert(initial_map.dom().contains(ord[i]));
                    assert(self@[ord[i]] == initial_map[ord[i]]@);
                }
            }
        }
        states
    }
}

/// Routes one record to its client's account, creating the account on
/// first reference, and applies the state machine step. The whole effect
/// on the engine is [`process_one_spec`].
pub fn process_transaction(transaction: Transaction, accounts: &mut ClientAccounts)
    ensures
        final(accounts)@ == process_one_spec(old(accounts)@, transaction),
        final(accounts).order_seq() == if old(accounts)@.dom().contains(transaction.client) {
            old(accounts).order_seq()
        } else {
            old(accounts).order_seq().push(transaction.client)
        },
        old(accounts).wf() ==> final(accounts).wf(),
{
    let client = transaction.client;
    let ghost m0 = accounts.accounts@;
    let ghost w = accounts.wf();
    if accounts.accounts.contains_key(&client) {
        let mut account = accounts.accounts.remove(&client).unwrap();
        account.apply_transaction(transaction);
        accounts.accounts.insert(client, account);
        proof {
            assert(accounts.accounts@ =~= m0.insert(
                client,
                accounts.accounts@[client],
            ));
            assert(accounts@ =~= process_one_spec(old(accounts)@, transaction));
            if w {
                assert(accounts.order@.to_set() =~= accounts.accounts@.dom());
                if old(accounts).wf() {
                    crate::account::lemma_apply_preserves_invariant(
                        old(accounts)@[client],
                        transaction,
                    );
                }
            }
        }
    } else {
        let mut account = ClientAccount::new(client);
        account.apply_transaction(transaction);
        accounts.accounts.insert(client, account);
        accounts.order.push(client);
        proof {
            assert(accounts@ =~= process_one_spec(old(accounts)@, transaction));
            if w {
                assert(accounts.order@.to_set() =~= accounts.accounts@.dom());
                assert(!old(accounts).order@.contains(client));
                assert(accounts.order@.no_duplicates());
                crate::account::lemma_apply_preserves_invariant(initial_account(client), transaction);
            }
        }
    }
}

/// Feeds an already-decoded record sequence through the engine in order:
/// the loop a lane's worker runs over its buffer, with the buffer already
/// drained into a vector.
pub fn process_records(records: &Vec<Transaction>, accounts: &mut ClientAccounts)
    ensures
        final(accounts)@ == process_seq_spec(records@, old(accounts)@),
        old(accounts).wf() ==> final(accounts).wf(),
        old(accounts).wf() ==> final(accounts).order_seq() == order_after(
            records@,
            old(accounts).order_seq(),
        ),
{
    let n = records.len();
    for i in 0..n
        invariant
            n == records@.len(),
            accounts@ == process_seq_spec(records@.subrange(0, i as int), old(accounts)@),
            old(accounts).wf() ==> accounts.wf(),
            old(accounts).wf() ==> accounts.order_seq() == order_after(
                records@.subrange(0, i as int),
                old(accounts).order_seq(),
            ),
    {
        let ghost pre = *accounts;
        process_transaction(records[i], accounts);
        proof {
            let prefix = records@.subrange(0, i + 1);
            assert(prefix.drop_last() =~= records@.subrange(0, i as int));
            assert(prefix.last() == records@[i as int]);
            if old(accounts).wf() {
                let client = records@[i as int].client;
                assert(pre@.dom() =~= pre.accounts@.dom());
                assert(pre@.dom().contains(client) == pre.order@.to_set().contains(client));
                assert(pre.order@.to_set().contains(client) == pre.order@.contains(client));
            }
        }
    }
    proof {
        assert(records@.subrange(0, records@.len() as int) =~= records@);
    }
}

} // verus!
