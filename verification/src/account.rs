//! The per-account transaction state machine.
//!
//! [`ClientAccount`] owns one client's balances, its ledger of settled
//! deposit/withdrawal effects and its set of currently disputed
//! transaction ids. [`ClientAccount::apply_transaction`] is the engine's
//! single step; its whole behaviour is the mathematical transition
//! function [`apply_spec`]. Records whose preconditions are unmet are
//! silently skipped: that is the normal, expected treatment of
//! economically invalid input, not an error.

use vstd::prelude::*;
use vstd::hash_map::HashMapWithView;
use vstd::hash_set::HashSetWithView;
use vstd::math::abs;
use crate::record::{Transaction, TransactionType};

verus! {

broadcast use vstd::std_specs::hash::group_hash_axioms;

/// Mathematical model of one client account: the value a [`ClientAccount`]
/// denotes in contracts. `ledger` maps each settled transaction id to its
/// signed effect (positive for a deposit, negative for a withdrawal);
/// `disputed` holds the ids currently under dispute.
#[verifier::ext_equal]
pub ghost struct AccountModel {
    pub client: u16,
    pub available: i64,
    pub held: i64,
    pub locked: bool,
    pub ledger: Map<u32, i64>,
    pub disputed: Set<u32>,
}

/// The state a client account is created in on first reference.
pub open spec fn initial_account(client: u16) -> AccountModel {
    AccountModel {
        client,
        available: 0,
        held: 0,
        locked: false,
        ledger: Map::empty(),
        disputed: Set::empty(),
    }
}

/// Well-formedness of an account: held funds are never negative, and only
/// settled transactions can be under dispute. Established by
/// [`ClientAccount::new`] and preserved by every transition
/// ([`lemma_apply_preserves_invariant`]).
pub open spec fn account_wf(m: AccountModel) -> bool {
    &&& m.held >= 0
    &&& m.disputed.subset_of(m.ledger.dom())
}

/// Whether the mathematical value `v` fits in an `i64`. Balance updates
/// that would leave the machine representation are skipped, in the same
/// silent way as any other unmet precondition.
pub open spec fn in_i64(v: int) -> bool {
    i64::MIN <= v <= i64::MAX
}

/// A deposit settles iff its transaction id is fresh and the credited
/// balance is representable.
pub open spec fn deposit_applies(m: AccountModel, t: Transaction) -> bool {
    &&& !m.ledger.contains_key(t.tx)
    &&& in_i64(m.available + t.amount)
}

/// A withdrawal settles iff its transaction id is fresh, the available
/// funds cover the amount, and the debited balance and the recorded
/// negated effect are representable.
pub open spec fn withdrawal_applies(m: AccountModel, t: Transaction) -> bool {
    &&& !m.ledger.contains_key(t.tx)
    &&& m.available >= t.amount
    &&& in_i64(0 - t.amount)
    &&& in_i64(m.available - t.amount)
}

/// A dispute takes hold iff the referenced transaction is settled, the
/// available funds cover the disputed effect's magnitude (otherwise the
/// funds were already withdrawn and the dispute is erroneous), the held
/// balance stays nonnegative, and both updated balances are representable.
pub open spec fn dispute_applies(m: AccountModel, t: Transaction) -> bool {
    &&& m.ledger.contains_key(t.tx)
    &&& m.available >= abs(m.ledger[t.tx] as int)
    &&& in_i64(m.available - m.ledger[t.tx])
    &&& m.held + m.ledger[t.tx] >= 0
    &&& in_i64(m.held + m.ledger[t.tx])
}

/// A resolve releases a dispute iff the referenced transaction is settled
/// and currently disputed, the held balance stays nonnegative, and both
/// updated balances are representable.
pub open spec fn resolve_applies(m: AccountModel, t: Transaction) -> bool {
    &&& m.ledger.contains_key(t.tx)
    &&& m.disputed.contains(t.tx)
    &&& in_i64(m.available + m.ledger[t.tx])
    &&& m.held - m.ledger[t.tx] >= 0
    &&& in_i64(m.held - m.ledger[t.tx])
}

/// A chargeback withdraws held funds and locks the account iff the
/// referenced transaction is settled and currently disputed, the held
/// balance stays nonnegative, and it is representable.
pub open spec fn chargeback_applies(m: AccountModel, t: Transaction) -> bool {
    &&& m.ledger.contains_key(t.tx)
    &&& m.disputed.contains(t.tx)
    &&& m.held - m.ledger[t.tx] >= 0
    &&& in_i64(m.held - m.ledger[t.tx])
}

/// The transition function of the state machine: the account that results
/// from processing one record. A record for another client, any record on
/// a locked account, a record of unrecognized kind, and a record whose
/// preconditions are unmet all leave the account unchanged.
pub open spec fn apply_spec(m: AccountModel, t: Transaction) -> AccountModel {
    if t.client != m.client || m.locked {
        m
    } else {
        match t.kind {
            TransactionType::Deposit => if deposit_applies(m, t) {
                AccountModel {
                    available: (m.available + t.amount) as i64,
                    ledger: m.ledger.insert(t.tx, t.amount),
                    ..m
                }
            } else {
                m
            },
            TransactionType::Withdrawal => if withdrawal_applies(m, t) {
                AccountModel {
                    available: (m.available - t.amount) as i64,
                    ledger: m.ledger.insert(t.tx, (0 - t.amount) as i64),
                    ..m
                }
            } else {
                m
            },
            TransactionType::Dispute => if dispute_applies(m, t) {
                AccountModel {
                    available: (m.available - m.ledger[t.tx]) as i64,
                    held: (m.held + m.ledger[t.tx]) as i64,
                    disputed: m.disputed.insert(t.tx),
                    ..m
                }
            } else {
                m
            },
            TransactionType::Resolve => if resolve_applies(m, t) {
                AccountModel {
                    available: (m.available + m.ledger[t.tx]) as i64,
                    held: (m.held - m.ledger[t.tx]) as i64,
                    disputed: m.disputed.remove(t.tx),
                    ..m
                }
            } else {
                m
            },
            TransactionType::Chargeback => if chargeback_applies(m, t) {
                AccountModel {
                    held: (m.held - m.ledger[t.tx]) as i64,
                    disputed: m.disputed.remove(t.tx),
                    locked: true,
                    ..m
                }
            } else {
                m
            },
            TransactionType::Unknown => m,
        }
    }
}

/// One client account, owned by exactly one lane's engine for the whole
/// run.
pub struct ClientAccount {
    client: u16,
    available: i64,
    held: i64,
    locked: bool,
    transactions: HashMapWithView<u32, i64>,
    disputed_transactions: HashSetWithView<u32>,
}

impl View for ClientAccount {
    type V = AccountModel;

    closed spec fn view(&self) -> AccountModel {
        AccountModel {
            client: self.client,
            available: self.available,
            held: self.held,
            locked: self.locked,
            ledger: self.transactions@,
            disputed: self.disputed_transactions@,
        }
    }
}

impl ClientAccount {
    /// Creates the account a client starts with: zero balances, unlocked,
    /// empty ledger, nothing disputed.
    pub fn new(client: u16) -> (account: Self)
        ensures
            account@ == initial_account(client),
            account_wf(account@),
    {
        let account = ClientAccount {
            client,
            available: 0,
            held: 0,
            locked: false,
            transactions: HashMapWithView::new(),
            disputed_transactions: HashSetWithView::new(),
        };
        proof {
            assert(account@ =~= initial_account(client));
        }
        account
    }

    /// Processes one record against this account: the single step of the
    /// state machine, exactly [`apply_spec`].
    pub fn apply_transaction(&mut self, transaction: Transaction)
        ensures
            final(self)@ == apply_spec(old(self)@, transaction),
    {
        // A record routed to the wrong account, or any record on a locked
        // account, is skipped.
        if transaction.client != self.client || self.locked {
            return;
        }

        match transaction.kind {
            TransactionType::Deposit => {
                if !self.transactions.contains_key(&transaction.tx) {
                    if let Some(credited) = self.available.checked_add(transaction.amount) {
                        self.available = credited;
                        self.transactions.insert(transaction.tx, transaction.amount);
                    }
                }
            }
            TransactionType::Withdrawal => {
                if !self.transactions.contains_key(&transaction.tx)
                    && self.available >= transaction.amount
                    && transaction.amount != i64::MIN
                {
                    if let Some(debited) = self.available.checked_sub(transaction.amount) {
                        self.available = debited;
                        self.transactions.insert(transaction.tx, -transaction.amount);
                    }
                }
            }
            TransactionType::Dispute => {
                let effect = match self.transactions.get(&transaction.tx) {
                    Some(e) => *e,
                    None => {
                        return;
                    },
                };
                // The magnitude of `i64::MIN` is not representable; the
                // available funds can never cover it.
                if effect != i64::MIN && self.available >= (if effect >= 0 {
                    effect
                } else {
                    -effect
                }) {
                    if let Some(avail) = self.available.checked_sub(effect) {
                        if let Some(held) = self.held.checked_add(effect) {
                            if held >= 0 {
                                self.available = avail;
                                self.held = held;
                                self.disputed_transactions.insert(transaction.tx);
                            }
                        }
                    }
                }
            }
            TransactionType::Resolve => {
                let effect = match self.transactions.get(&transaction.tx) {
                    Some(e) => *e,
                    None => {
                        return;
                    },
                };
                if self.disputed_transactions.contains(&transaction.tx) {
                    if let Some(avail) = self.available.checked_add(effect) {
                        if let Some(held) = self.held.checked_sub(effect) {
                            if held >= 0 {
                                self.available = avail;
                                self.held = held;
                                self.disputed_transactions.remove(&transaction.tx);
                            }
                        }
                    }
                }
            }
            TransactionType::Chargeback => {
                let effect = match self.transactions.get(&transaction.tx) {
                    Some(e) => *e,
                    None => {
                        return;
                    },
                };
                if self.disputed_transactions.contains(&transaction.tx) {
                    if let Some(held) = self.held.checked_sub(effect) {
                        if held >= 0 {
                            self.held = held;
                            self.disputed_transactions.remove(&transaction.tx);
                            self.locked = true;
                        }
                    }
                }
            }
            TransactionType::Unknown => {
                // A record of unrecognized kind is consumed with no effect.
            }
        }
    }
}

/// The immutable snapshot of a client account taken at drain time. The
/// total balance is never stored: [`ClientState::total`] recomputes it,
/// so `total == available + held` holds by construction.
#[derive(Debug, Clone, Copy, PartialEq, Eq, Structural)]
pub struct ClientState {
    pub client: u16,
    pub available: i64,
    pub held: i64,
    pub locked: bool,
}

/// The snapshot an account model yields at drain time.
pub open spec fn state_of(m: AccountModel) -> ClientState {
    ClientState { client: m.client, available: m.available, held: m.held, locked: m.locked }
}

impl From<ClientAccount> for ClientState {
    /// Snapshots a finished account, dropping its ledger and disputed set.
    fn from(account: ClientAccount) -> (state: Self) {
        ClientState {
            client: account.client,
            available: account.available,
            held: account.held,
            locked: account.locked,
        }
    }
}

impl vstd::std_specs::convert::FromSpecImpl<ClientAccount> for ClientState {
    open spec fn obeys_from_spec() -> bool {
        true
    }

    open spec fn from_spec(account: ClientAccount) -> ClientState {
        state_of(account@)
    }
}

impl ClientState {
    /// The account's total funds. Recomputed from the snapshot, never
    /// stored, so it always equals available plus held.
    pub fn total(&self) -> (t: i128)
        ensures
            t == self.available + self.held,
    {
        (self.available as i128) + (self.held as i128)
    }
}

/// The account that results from processing a whole record sequence, in
/// order, starting from `m`.
pub open spec fn apply_seq_spec(s: Seq<Transaction>, m: AccountModel) -> AccountModel
    decreases s.len(),
{
    if s.len() == 0 {
        m
    } else {
        apply_spec(apply_seq_spec(s.drop_last(), m), s.last())
    }
}

/// Every transition preserves the account invariant: held funds stay
/// nonnegative and only settled transactions are disputed.
pub proof fn lemma_apply_preserves_invariant(m: AccountModel, t: Transaction)
    requires
        account_wf(m),
    ensures
        account_wf(apply_spec(m, t)),
{
}

/// The account invariant holds at every point in time: any record
/// sequence processed from a well-formed account leaves it well-formed,
/// and so does every prefix of it.
pub proof fn lemma_apply_seq_preserves_invariant(s: Seq<Transaction>, m: AccountModel)
    requires
        account_wf(m),
    ensures
        account_wf(apply_seq_spec(s, m)),
    decreases s.len(),
{
    if s.len() > 0 {
        lemma_apply_seq_preserves_invariant(s.drop_last(), m);
        lemma_apply_preserves_invariant(apply_seq_spec(s.drop_last(), m), s.last());
    }
}

/// A locked account is absorbing: no record of any kind changes its
/// balances, its ledger or its disputed set.
pub proof fn lemma_locked_account_unchanged(m: AccountModel, t: Transaction)
    requires
        m.locked,
    ensures
        apply_spec(m, t) == m,
{
}

/// Lockout is absorbing over whole streams too: once an account is
/// locked, no subsequent record sequence of any length changes its
/// available funds, its held funds, its ledger or its disputed set.
pub proof fn lemma_locked_account_survives_stream(s: Seq<Transaction>, m: AccountModel)
    requires
        m.locked,
    ensures
        apply_seq_spec(s, m) == m,
    decreases s.len(),
{
    if s.len() > 0 {
        lemma_locked_account_survives_stream(s.drop_last(), m);
        lemma_locked_account_unchanged(m, s.last());
    }
}

/// Disputing a settled transaction whose held effect would drive the
/// available funds negative changes nothing at all.
pub proof fn lemma_insufficient_dispute_is_noop(m: AccountModel, t: Transaction)
    requires
        t.kind == TransactionType::Dispute,
        m.ledger.contains_key(t.tx),
        m.available - m.ledger[t.tx] < 0,
    ensures
        apply_spec(m, t) == m,
{
}

/// Resolving or charging back a transaction id that is not currently in
/// the disputed set changes nothing at all.
pub proof fn lemma_undisputed_reversal_is_noop(m: AccountModel, t: Transaction)
    requires
        t.kind == TransactionType::Resolve || t.kind == TransactionType::Chargeback,
        !m.disputed.contains(t.tx),
    ensures
        apply_spec(m, t) == m,
{
}

/// A withdrawal with a fresh transaction id and a nonnegative amount is
/// applied if and only if the available funds cover it; otherwise it is a
/// no-op.
pub proof fn lemma_withdrawal_applied_iff_covered(m: AccountModel, t: Transaction)
    requires
        t.kind == TransactionType::Withdrawal,
        t.client == m.client,
        !m.locked,
        !m.ledger.contains_key(t.tx),
        t.amount >= 0,
    ensures
        m.available >= t.amount ==> apply_spec(m, t) == (AccountModel {
            available: (m.available - t.amount) as i64,
            ledger: m.ledger.insert(t.tx, (0 - t.amount) as i64),
            ..m
        }),
        m.available < t.amount ==> apply_spec(m, t) == m,
{
}

} // verus!
