//! The account ledger: per-client accounts replaying an ordered stream of
//! transactions.
//!
//! Amounts are non-negative fixed-point values counted in whatever minor unit
//! the caller chooses (the unit never matters to the rules). Each account
//! keeps an available balance, a held balance, a lock flag, and a log of its
//! money movements together with their dispute status. The whole behaviour is
//! first written down as functions on mathematical states (`account_apply`,
//! `ledger_apply`); the executable types then carry contracts saying they
//! follow those functions exactly.

use crate::sums::{
    lemma_map_sum_bounds, lemma_map_sum_insert, lemma_map_sum_le, lemma_map_sum_update,
    lemma_u32_set_len, map_sum,
};
use std::collections::{HashMap, HashSet};
use vstd::prelude::*;

verus! {

broadcast use vstd::std_specs::hash::group_hash_axioms;

/// One transaction addressed to a client's account. Deposits and withdrawals
/// move money and carry an amount; the other three refer back to an earlier
/// money movement through its transaction id.
#[derive(Clone, Copy, Debug, PartialEq, Eq)]
pub enum Transaction {
    Deposit { amount: u64 },
    Withdrawal { amount: u64 },
    Dispute,
    Resolve,
    Chargeback,
}

/// The dispute status of a logged money movement. `Chargeback` is terminal:
/// no transition ever leaves it.
#[derive(Clone, Copy, Debug, PartialEq, Eq)]
pub enum TransactionState {
    Resolve,
    Dispute,
    Chargeback,
}

/// The recorded kind and amount of a logged money movement.
#[derive(Clone, Copy, Debug, PartialEq, Eq)]
pub enum TransactionActionState {
    Deposit { amount: u64 },
    Withdrawal { amount: u64 },
}

/// One entry of an account's transaction log: a money movement and its
/// current dispute status.
#[derive(Clone, Copy, Debug, PartialEq, Eq)]
pub struct TransactionLog {
    pub amount: TransactionActionState,
    pub state: TransactionState,
}

/// Does this transaction move money (and therefore claim a transaction id)?
pub open spec fn is_money_movement(t: Transaction) -> bool {
    match t {
        Transaction::Deposit { .. } => true,
        Transaction::Withdrawal { .. } => true,
        _ => false,
    }
}

/// The mathematical state of one account.
#[verifier::ext_equal]
pub struct AccountView {
    pub available: int,
    pub held: int,
    pub locked: bool,
    pub log: Map<u32, TransactionLog>,
}

/// The mathematical state of the whole ledger: the accounts by client id and
/// the set of transaction ids already consumed by a money movement.
#[verifier::ext_equal]
pub struct LedgerView {
    pub accounts: Map<u16, AccountView>,
    pub seen: Set<u32>,
}

/// The movement's amount, whatever its kind.
pub open spec fn entry_amount(e: TransactionLog) -> int {
    match e.amount {
        TransactionActionState::Deposit { amount } => amount as int,
        TransactionActionState::Withdrawal { amount } => amount as int,
    }
}

/// A log entry's contribution to the available balance: a deposit counts
/// while it stands undisputed, a withdrawal counts negatively forever.
pub open spec fn entry_avail(e: TransactionLog) -> int {
    match e.amount {
        TransactionActionState::Deposit { amount } => {
            if e.state == TransactionState::Resolve {
                amount as int
            } else {
                0
            }
        },
        TransactionActionState::Withdrawal { amount } => -(amount as int),
    }
}

/// A log entry's contribution to the held balance: its amount while it is
/// under dispute.
pub open spec fn entry_held(e: TransactionLog) -> int {
    if e.state == TransactionState::Dispute {
        entry_amount(e)
    } else {
        0
    }
}

/// A log entry's net movement of money into the account: deposited amounts
/// count positively, withdrawn amounts negatively, whatever the status.
pub open spec fn entry_net(e: TransactionLog) -> int {
    match e.amount {
        TransactionActionState::Deposit { amount } => amount as int,
        TransactionActionState::Withdrawal { amount } => -(amount as int),
    }
}

/// `entry_avail` as a weight function for summation.
pub open spec fn avail_weight() -> spec_fn(TransactionLog) -> int {
    |e: TransactionLog| entry_avail(e)
}

/// `entry_held` as a weight function for summation.
pub open spec fn held_weight() -> spec_fn(TransactionLog) -> int {
    |e: TransactionLog| entry_held(e)
}

/// `entry_net` as a weight function for summation.
pub open spec fn net_weight() -> spec_fn(TransactionLog) -> int {
    |e: TransactionLog| entry_net(e)
}

/// What the available balance of an account with this log must be.
pub open spec fn avail_sum(log: Map<u32, TransactionLog>) -> int {
    map_sum(log, avail_weight())
}

/// What the held balance of an account with this log must be.
pub open spec fn held_sum(log: Map<u32, TransactionLog>) -> int {
    map_sum(log, held_weight())
}

/// Net money moved into the account over the whole log.
pub open spec fn net_sum(log: Map<u32, TransactionLog>) -> int {
    map_sum(log, net_weight())
}

/// Well-formedness of an account state. Every account reachable from an
/// empty ledger satisfies this:
/// - the balances are exactly the sums of the log's contributions,
/// - no more money has been withdrawn than was ever deposited, and
/// - an unlocked account holds no charged-back entry (a chargeback locks).
pub open spec fn account_inv(a: AccountView) -> bool {
    &&& a.log.dom().finite()
    &&& a.available == avail_sum(a.log)
    &&& a.held == held_sum(a.log)
    &&& net_sum(a.log) >= 0
    &&& !a.locked ==> forall|k: u32|
        a.log.dom().contains(k) ==> (#[trigger] a.log[k]).state != TransactionState::Chargeback
}

/// The account state a first deposit creates.
pub open spec fn new_account_view(tx: u32, amount: u64) -> AccountView {
    AccountView {
        available: amount as int,
        held: 0,
        locked: false,
        log: Map::empty().insert(
            tx,
            TransactionLog {
                amount: TransactionActionState::Deposit { amount },
                state: TransactionState::Resolve,
            },
        ),
    }
}

/// A withdrawal only succeeds against sufficient available funds; an
/// insufficient one changes nothing, not even the log.
pub open spec fn apply_withdrawal(a: AccountView, tx: u32, amount: u64) -> AccountView {
    if a.available >= amount as int {
        AccountView {
            available: a.available - amount as int,
            held: a.held,
            locked: a.locked,
            log: a.log.insert(
                tx,
                TransactionLog {
                    amount: TransactionActionState::Withdrawal { amount },
                    state: TransactionState::Resolve,
                },
            ),
        }
    } else {
        a
    }
}

/// A dispute moves a resolved entry to `Dispute`. A disputed deposit's amount
/// moves from available to held; a disputed withdrawal's amount is added to
/// held only, since the withdrawn funds are already gone. Anything else is a
/// no-op.
pub open spec fn apply_dispute(a: AccountView, tx: u32) -> AccountView {
    if a.log.dom().contains(tx) && a.log[tx].state == TransactionState::Resolve {
        let e = a.log[tx];
        match e.amount {
            TransactionActionState::Deposit { amount } => AccountView {
                available: a.available - amount as int,
                held: a.held + amount as int,
                locked: a.locked,
                log: a.log.insert(
                    tx,
                    TransactionLog { amount: e.amount, state: TransactionState::Dispute },
                ),
            },
            TransactionActionState::Withdrawal { amount } => AccountView {
                available: a.available,
                held: a.held + amount as int,
                locked: a.locked,
                log: a.log.insert(
                    tx,
                    TransactionLog { amount: e.amount, state: TransactionState::Dispute },
                ),
            },
        }
    } else {
        a
    }
}

/// A resolve undoes a dispute: the entry returns to `Resolve` and the held
/// amount is released (back to available for a deposit, dropped for a
/// withdrawal). Anything but a disputed entry is a no-op.
pub open spec fn apply_resolve(a: AccountView, tx: u32) -> AccountView {
    if a.log.dom().contains(tx) && a.log[tx].state == TransactionState::Dispute {
        let e = a.log[tx];
        match e.amount {
            TransactionActionState::Deposit { amount } => AccountView {
                available: a.available + amount as int,
                held: a.held - amount as int,
                locked: a.locked,
                log: a.log.insert(
                    tx,
                    TransactionLog { amount: e.amount, state: TransactionState::Resolve },
                ),
            },
            TransactionActionState::Withdrawal { amount } => AccountView {
                available: a.available,
                held: a.held - amount as int,
                locked: a.locked,
                log: a.log.insert(
                    tx,
                    TransactionLog { amount: e.amount, state: TransactionState::Resolve },
                ),
            },
        }
    } else {
        a
    }
}

/// A chargeback finishes a dispute the other way: the entry becomes
/// `Chargeback` (terminal), the held amount is removed for good, and the
/// account locks. Anything but a disputed entry is a no-op.
pub open spec fn apply_chargeback(a: AccountView, tx: u32) -> AccountView {
    if a.log.dom().contains(tx) && a.log[tx].state == TransactionState::Dispute {
        let e = a.log[tx];
        AccountView {
            available: a.available,
            held: a.held - entry_amount(e),
            locked: true,
            log: a.log.insert(
                tx,
                TransactionLog { amount: e.amount, state: TransactionState::Chargeback },
            ),
        }
    } else {
        a
    }
}

/// One step of the account state machine. A locked account ignores every
/// transaction unconditionally; otherwise the transaction's own rule applies.
pub open spec fn account_apply(a: AccountView, tx: u32, t: Transaction) -> AccountView {
    if a.locked {
        a
    } else {
        match t {
            Transaction::Deposit { amount } => AccountView {
                available: a.available + amount as int,
                held: a.held,
                locked: a.locked,
                log: a.log.insert(
                    tx,
                    TransactionLog {
                        amount: TransactionActionState::Deposit { amount },
                        state: TransactionState::Resolve,
                    },
                ),
            },
            Transaction::Withdrawal { amount } => apply_withdrawal(a, tx, amount),
            Transaction::Dispute => apply_dispute(a, tx),
            Transaction::Resolve => apply_resolve(a, tx),
            Transaction::Chargeback => apply_chargeback(a, tx),
        }
    }
}

/// The empty ledger every run starts from.
pub open spec fn ledger_init() -> LedgerView {
    LedgerView { accounts: Map::empty(), seen: Set::empty() }
}

/// One step of the ledger. A money movement first claims its transaction id:
/// a reused id makes the whole transaction a no-op (beyond the set lookup).
/// The transaction is then routed to the addressed account; a missing account
/// is created only by a deposit, and anything else addressed to a missing
/// account is dropped.
pub open spec fn ledger_apply(l: LedgerView, client: u16, tx: u32, t: Transaction) -> LedgerView {
    if is_money_movement(t) {
        if l.seen.contains(tx) {
            l
        } else {
            let seen = l.seen.insert(tx);
            if l.accounts.dom().contains(client) {
                LedgerView {
                    accounts: l.accounts.insert(client, account_apply(l.accounts[client], tx, t)),
                    seen,
                }
            } else {
                match t {
                    Transaction::Deposit { amount } => LedgerView {
                        accounts: l.accounts.insert(client, new_account_view(tx, amount)),
                        seen,
                    },
                    _ => LedgerView { accounts: l.accounts, seen },
                }
            }
        }
    } else {
        if l.accounts.dom().contains(client) {
            LedgerView {
                accounts: l.accounts.insert(client, account_apply(l.accounts[client], tx, t)),
                seen: l.seen,
            }
        } else {
            l
        }
    }
}

/// Well-formedness of a ledger state: every account is well-formed, and every
/// transaction id logged anywhere was claimed in the dedup set.
pub open spec fn ledger_inv(l: LedgerView) -> bool {
    &&& forall|c: u16| l.accounts.dom().contains(c) ==> account_inv(#[trigger] l.accounts[c])
    &&& forall|c: u16, k: u32|
        l.accounts.dom().contains(c) && #[trigger] l.accounts[c].log.dom().contains(k)
            ==> l.seen.contains(k)
}

/// The sums over a well-formed log compare as the balances do: the available
/// balance never exceeds the net money moved in, and the held balance is
/// never negative.
proof fn lemma_sum_comparisons(log: Map<u32, TransactionLog>)
    requires
        log.dom().finite(),
    ensures
        avail_sum(log) <= net_sum(log),
        held_sum(log) >= 0,
{
    assert forall|k: u32| log.dom().contains(k) implies avail_weight()(log[k])
        <= net_weight()(log[k]) by {
        assert(entry_avail(log[k]) <= entry_net(log[k]));
    };
    lemma_map_sum_le(log, avail_weight(), net_weight());
    assert forall|k: u32| log.dom().contains(k) implies (
    |e: TransactionLog| 0int)(log[k]) <= held_weight()(log[k]) by {
        assert(entry_held(log[k]) >= 0);
    };
    lemma_map_sum_le(log, |e: TransactionLog| 0int, held_weight());
    lemma_map_sum_bounds(log, |e: TransactionLog| 0int, 0, 0);
}

/// The ceiling every balance of a well-formed account stays under: the log
/// has at most `2^32` entries (its keys are 32-bit ids) of at most `2^64 - 1`
/// each, so every sum over it fits far inside an `i128`.
pub open spec fn balance_bound() -> int {
    0x1_0000_0000_0000_0000_0000_0000
}

/// The balances of a well-formed account are bounded by `balance_bound()`,
/// and the held balance is non-negative.
pub proof fn lemma_account_bounds(a: AccountView)
    requires
        account_inv(a),
    ensures
        -balance_bound() <= a.available <= balance_bound(),
        0 <= a.held <= balance_bound(),
{
    let n = a.log.dom().len() as int;
    let b = u64::MAX as int;
    lemma_u32_set_len(a.log.dom());
    assert forall|k: u32| a.log.dom().contains(k) implies -b <= avail_weight()(a.log[k]) <= b by {
        assert(-b <= entry_avail(a.log[k]) <= b);
    };
    lemma_map_sum_bounds(a.log, avail_weight(), -b, b);
    assert forall|k: u32| a.log.dom().contains(k) implies 0 <= held_weight()(a.log[k]) <= b by {
        assert(0 <= entry_held(a.log[k]) <= b);
    };
    lemma_map_sum_bounds(a.log, held_weight(), 0, b);
    assert(b * n <= balance_bound() && -balance_bound() <= (-b) * n) by (nonlinear_arith)
        requires
            0 <= n <= 0x1_0000_0000,
            b == u64::MAX as int,
    ;
}

/// The keys of the log after a step: a money movement may add its own id,
/// nothing else adds any.
pub proof fn lemma_account_apply_log_dom(a: AccountView, tx: u32, t: Transaction)
    ensures
        forall|k: u32|
            #[trigger] account_apply(a, tx, t).log.dom().contains(k) ==> a.log.dom().contains(k)
                || (is_money_movement(t) && k == tx),
{
}

/// The account a first deposit creates is well-formed.
pub proof fn lemma_new_account_inv(tx: u32, amount: u64)
    ensures
        account_inv(new_account_view(tx, amount)),
{
    let e = TransactionLog {
        amount: TransactionActionState::Deposit { amount },
        state: TransactionState::Resolve,
    };
    let empty = Map::<u32, TransactionLog>::empty();
    assert(empty.dom() =~= Set::empty());
    assert(map_sum(empty, avail_weight()) == 0);
    assert(map_sum(empty, held_weight()) == 0);
    assert(map_sum(empty, net_weight()) == 0);
    lemma_map_sum_insert(empty, avail_weight(), tx, e);
    lemma_map_sum_insert(empty, held_weight(), tx, e);
    lemma_map_sum_insert(empty, net_weight(), tx, e);
}

/// One step of the account state machine preserves well-formedness, provided
/// a money movement's id is fresh for the log (the ledger's dedup set
/// guarantees that).
pub proof fn lemma_account_apply_preserves_inv(a: AccountView, tx: u32, t: Transaction)
    requires
        account_inv(a),
        is_money_movement(t) ==> !a.log.dom().contains(tx),
    ensures
        account_inv(account_apply(a, tx, t)),
{
    if a.locked {
        return;
    }
    match t {
        Transaction::Deposit { amount } => {
            let e = TransactionLog {
                amount: TransactionActionState::Deposit { amount },
                state: TransactionState::Resolve,
            };
            lemma_map_sum_insert(a.log, avail_weight(), tx, e);
            lemma_map_sum_insert(a.log, held_weight(), tx, e);
            lemma_map_sum_insert(a.log, net_weight(), tx, e);
        },
        Transaction::Withdrawal { amount } => {
            if a.available >= amount as int {
                let e = TransactionLog {
                    amount: TransactionActionState::Withdrawal { amount },
                    state: TransactionState::Resolve,
                };
                lemma_map_sum_insert(a.log, avail_weight(), tx, e);
                lemma_map_sum_insert(a.log, held_weight(), tx, e);
                lemma_map_sum_insert(a.log, net_weight(), tx, e);
                lemma_sum_comparisons(a.log);
            }
        },
        Transaction::Dispute => {
            if a.log.dom().contains(tx) && a.log[tx].state == TransactionState::Resolve {
                let e = a.log[tx];
                let e2 = TransactionLog { amount: e.amount, state: TransactionState::Dispute };
                lemma_map_sum_update(a.log, avail_weight(), tx, e2);
                lemma_map_sum_update(a.log, held_weight(), tx, e2);
                lemma_map_sum_update(a.log, net_weight(), tx, e2);
            }
        },
        Transaction::Resolve => {
            if a.log.dom().contains(tx) && a.log[tx].state == TransactionState::Dispute {
                let e = a.log[tx];
                let e2 = TransactionLog { amount: e.amount, state: TransactionState::Resolve };
                lemma_map_sum_update(a.log, avail_weight(), tx, e2);
                lemma_map_sum_update(a.log, held_weight(), tx, e2);
                lemma_map_sum_update(a.log, net_weight(), tx, e2);
            }
        },
        Transaction::Chargeback => {
            if a.log.dom().contains(tx) && a.log[tx].state == TransactionState::Dispute {
                let e = a.log[tx];
                let e2 = TransactionLog { amount: e.amount, state: TransactionState::Chargeback };
                lemma_map_sum_update(a.log, avail_weight(), tx, e2);
                lemma_map_sum_update(a.log, held_weight(), tx, e2);
                lemma_map_sum_update(a.log, net_weight(), tx, e2);
            }
        },
    }
}

/// One client's account: the balances, the lock flag, and the log of every
/// money movement applied to it with its current dispute status.
#[derive(Debug, PartialEq)]
pub struct UserAccount {
    pub available: i128,
    pub held: i128,
    pub locked: bool,
    pub transaction_log: HashMap<u32, TransactionLog>,
}

impl View for UserAccount {
    type V = AccountView;

    open spec fn view(&self) -> AccountView {
        AccountView {
            available: self.available as int,
            held: self.held as int,
            locked: self.locked,
            log: self.transaction_log@,
        }
    }
}

impl UserAccount {
    /// Well-formedness of this account.
    pub open spec fn inv(&self) -> bool {
        account_inv(self@)
    }

    /// A first transaction creates an account only if it is a deposit; the
    /// new account is seeded with the deposit as its one resolved log entry.
    fn new(tx: u32, transaction: Transaction) -> (r: Option<UserAccount>)
        ensures
            match transaction {
                Transaction::Deposit { amount } => r matches Some(account) && account@
                    == new_account_view(tx, amount) && account.inv(),
                _ => r is None,
            },
    {
        match transaction {
            Transaction::Deposit { amount } => {
                let mut transaction_log: HashMap<u32, TransactionLog> = HashMap::new();
                transaction_log.insert(
                    tx,
                    TransactionLog {
                        amount: TransactionActionState::Deposit { amount },
                        state: TransactionState::Resolve,
                    },
                );
                let account = UserAccount {
                    available: amount as i128,
                    held: 0i128,
                    locked: false,
                    transaction_log,
                };
                proof {
                    assert(account@ =~~= new_account_view(tx, amount));
                    lemma_new_account_inv(tx, amount);
                }
                Some(account)
            },
            _ => None,
        }
    }

    /// Applies one transaction to this account, following `account_apply`
    /// exactly. When every money movement carries an id that is fresh for
    /// the log — which the ledger's dedup set guarantees — well-formedness
    /// is preserved.
    fn change_account_state(&mut self, tx: u32, transaction: Transaction)
        requires
            old(self).inv(),
        ensures
            final(self)@ == account_apply(old(self)@, tx, transaction),
            (is_money_movement(transaction) ==> !old(self)@.log.dom().contains(tx))
                ==> final(self).inv(),
    {
        if self.locked {
            return;
        }
        match transaction {
            Transaction::Deposit { amount } => {
                proof {
                    lemma_account_bounds(self@);
                }
                self.transaction_log.insert(
                    tx,
                    TransactionLog {
                        amount: TransactionActionState::Deposit { amount },
                        state: TransactionState::Resolve,
                    },
                );
                self.available = self.available + amount as i128;
                proof {
                    assert(self@ =~~= account_apply(old(self)@, tx, transaction));
                }
            },
            Transaction::Withdrawal { amount } => {
                self.withdrawal(amount, tx);
                proof {
                    assert(self@ =~~= account_apply(old(self)@, tx, transaction));
                }
            },
            Transaction::Dispute => {
                let entry = self.transaction_log.get(&tx);
                if let Some(entry_ref) = entry {
                    let e = *entry_ref;
                    if matches!(e.state, TransactionState::Resolve) {
                        proof {
                            lemma_account_bounds(self@);
                        }
                        self.transaction_log.insert(
                            tx,
                            TransactionLog { amount: e.amount, state: TransactionState::Dispute },
                        );
                        match e.amount {
                            TransactionActionState::Deposit { amount } => {
                                self.available = self.available - amount as i128;
                                self.held = self.held + amount as i128;
                            },
                            TransactionActionState::Withdrawal { amount } => {
                                self.held = self.held + amount as i128;
                            },
                        }
                    }
                }
                proof {
                    assert(self@ =~~= account_apply(old(self)@, tx, transaction));
                }
            },
            Transaction::Resolve => {
                let entry = self.transaction_log.get(&tx);
                if let Some(entry_ref) = entry {
                    let e = *entry_ref;
                    if matches!(e.state, TransactionState::Dispute) {
                        proof {
                            lemma_account_bounds(self@);
                        }
                        self.transaction_log.insert(
                            tx,
                            TransactionLog { amount: e.amount, state: TransactionState::Resolve },
                        );
                        match e.amount {
                            TransactionActionState::Deposit { amount } => {
                                self.available = self.available + amount as i128;
                                self.held = self.held - amount as i128;
                            },
                            TransactionActionState::Withdrawal { amount } => {
                                self.held = self.held - amount as i128;
                            },
                        }
                    }
                }
                proof {
                    assert(self@ =~~= account_apply(old(self)@, tx, transaction));
                }
            },
            Transaction::Chargeback => {
                let entry = self.transaction_log.get(&tx);
                if let Some(entry_ref) = entry {
                    let e = *entry_ref;
                    if matches!(e.state, TransactionState::Dispute) {
                        proof {
                            lemma_account_bounds(self@);
                        }
                        self.transaction_log.insert(
                            tx,
                            TransactionLog { amount: e.amount, state: TransactionState::Chargeback },
                        );
                        match e.amount {
                            TransactionActionState::Deposit { amount } => {
                                self.held = self.held - amount as i128;
                            },
                            TransactionActionState::Withdrawal { amount } => {
                                self.held = self.held - amount as i128;
                            },
                        }
                        self.locked = true;
                    }
                }
                proof {
                    assert(self@ =~~= account_apply(old(self)@, tx, transaction));
                }
            },
        }
        proof {
            if !is_money_movement(transaction) || !old(self)@.log.dom().contains(tx) {
                lemma_account_apply_preserves_inv(old(self)@, tx, transaction);
            }
        }
    }

    /// Debits the available balance only when it covers the amount;
    /// otherwise nothing changes, not even the log.
    fn withdrawal(&mut self, amount: u64, tx: u32)
        ensures
            final(self)@ == apply_withdrawal(old(self)@, tx, amount),
    {
        if self.available >= amount as i128 {
            self.transaction_log.insert(
                tx,
                TransactionLog {
                    amount: TransactionActionState::Withdrawal { amount },
                    state: TransactionState::Resolve,
                },
            );
            self.available = self.available - amount as i128;
            proof {
                assert(self@ =~~= apply_withdrawal(old(self)@, tx, amount));
            }
        }
    }
}

/// One step of the ledger preserves well-formedness.
pub proof fn lemma_ledger_apply_preserves_inv(l: LedgerView, client: u16, tx: u32, t: Transaction)
    requires
        ledger_inv(l),
    ensures
        ledger_inv(ledger_apply(l, client, tx, t)),
{
    let l2 = ledger_apply(l, client, tx, t);
    if is_money_movement(t) {
        if l.seen.contains(tx) {
        } else if l.accounts.dom().contains(client) {
            let a = l.accounts[client];
            lemma_account_apply_preserves_inv(a, tx, t);
            lemma_account_apply_log_dom(a, tx, t);
        } else {
            match t {
                Transaction::Deposit { amount } => {
                    lemma_new_account_inv(tx, amount);
                },
                _ => {},
            }
        }
    } else {
        if l.accounts.dom().contains(client) {
            let a = l.accounts[client];
            lemma_account_apply_preserves_inv(a, tx, t);
            lemma_account_apply_log_dom(a, tx, t);
        }
    }
}

/// The ledger: every client's account, the set of transaction ids already
/// consumed by a money movement, and the order in which accounts were
/// created.
pub struct Accounts {
    user_accounts: HashMap<u16, UserAccount>,
    transaction_ids: HashSet<u32>,
    clients: Vec<u16>,
}

impl View for Accounts {
    type V = LedgerView;

    closed spec fn view(&self) -> LedgerView {
        LedgerView {
            accounts: self.user_accounts@.map_values(|a: UserAccount| a@),
            seen: self.transaction_ids@,
        }
    }
}

impl Accounts {
    /// Well-formedness: the ledger state is well-formed and `clients` lists
    /// every account-owning client id exactly once.
    pub closed spec fn inv(&self) -> bool {
        &&& ledger_inv(self@)
        &&& self.clients@.no_duplicates()
        &&& forall|i: int|
            0 <= i < self.clients@.len() ==> self.user_accounts@.dom().contains(
                #[trigger] self.clients@[i],
            )
        &&& forall|c: u16| self.user_accounts@.dom().contains(c) ==> self.clients@.contains(c)
    }

    /// A well-formed ledger's mathematical state is well-formed; in
    /// particular every account in it satisfies `account_inv`.
    pub proof fn lemma_inv_ledger_inv(&self)
        requires
            self.inv(),
        ensures
            ledger_inv(self@),
    {
    }

    /// An empty ledger: no accounts, no transaction id consumed yet.
    pub fn new() -> (r: Accounts)
        ensures
            r.inv(),
            r@ == ledger_init(),
    {
        let r = Accounts {
            user_accounts: HashMap::new(),
            transaction_ids: HashSet::new(),
            clients: Vec::new(),
        };
        proof {
            assert(r@ =~~= ledger_init());
        }
        r
    }

    /// The account of `client`, if one was ever created for it.
    pub fn get_user_account(&self, client: u16) -> (r: Option<&UserAccount>)
        ensures
            match r {
                Some(account) => self@.accounts.dom().contains(client) && account@
                    == self@.accounts[client],
                None => !self@.accounts.dom().contains(client),
            },
    {
        proof {
            assert(self@.accounts.dom() =~= self.user_accounts@.dom());
        }
        self.user_accounts.get(&client)
    }

    /// Every client with its account, one pair per client, in account
    /// creation order.
    pub fn get_user_accounts(&self) -> (r: Vec<(u16, &UserAccount)>)
        requires
            self.inv(),
        ensures
            forall|i: int|
                0 <= i < r@.len() ==> self@.accounts.dom().contains((#[trigger] r@[i]).0)
                    && r@[i].1@ == self@.accounts[r@[i].0],
            forall|c: u16|
                #[trigger] self@.accounts.dom().contains(c) ==> exists|i: int|
                    0 <= i < r@.len() && (#[trigger] r@[i]).0 == c,
            forall|i: int, j: int| 0 <= i < j < r@.len() ==> r@[i].0 != r@[j].0,
    {
        let mut r: Vec<(u16, &UserAccount)> = Vec::new();
        let n = self.clients.len();
        let mut idx: usize = 0;
        while idx < n
            invariant
                self.inv(),
                n == self.clients@.len(),
                idx <= n,
                r@.len() == idx,
                forall|i: int|
                    0 <= i < idx ==> (#[trigger] r@[i]).0 == self.clients@[i] && r@[i].1@
                        == self@.accounts[r@[i].0],
            decreases n - idx,
        {
            proof {
                assert(self@.accounts.dom() =~= self.user_accounts@.dom());
            }
            let client = self.clients[idx];
            match self.user_accounts.get(&client) {
                Some(account) => {
                    r.push((client, account));
                },
                None => {
                    vstd::pervasive::unreached::<()>();
                },
            }
            idx = idx + 1;
        }
        proof {
            assert forall|c: u16| #[trigger] self@.accounts.dom().contains(c) implies exists|i: int|
                0 <= i < r@.len() && (#[trigger] r@[i]).0 == c by {
                assert(self.clients@.contains(c));
                let i = choose|i: int| 0 <= i < self.clients@.len() && self.clients@[i] == c;
                assert(r@[i].0 == c);
            };
        }
        r
    }

    /// Applies one transaction to the ledger, following `ledger_apply`
    /// exactly: money movements are deduplicated by transaction id, the
    /// addressed account applies its own rules, and a missing account is
    /// created only by a deposit.
    pub fn add_transaction(&mut self, client: u16, tx: u32, transaction: Transaction)
        requires
            old(self).inv(),
        ensures
            final(self).inv(),
            final(self)@ == ledger_apply(old(self)@, client, tx, transaction),
    {
        let movement = matches!(
            transaction,
            Transaction::Deposit { .. } | Transaction::Withdrawal { .. }
        );
        if movement {
            let newly_inserted = self.transaction_ids.insert(tx);
            if !newly_inserted {
                proof {
                    assert(self.transaction_ids@ =~= old(self)@.seen);
                    assert(self@ =~~= ledger_apply(old(self)@, client, tx, transaction));
                }
                return;
            }
        }
        let existing = self.user_accounts.remove(&client);
        match existing {
            Some(mut account) => {
                proof {
                    assert(old(self)@.accounts.dom().contains(client));
                    assert(account@ == old(self)@.accounts[client]);
                    if is_money_movement(transaction) {
                        // A fresh movement id cannot already stand in the log.
                        assert(!account@.log.dom().contains(tx));
                    }
                }
                account.change_account_state(tx, transaction);
                self.user_accounts.insert(client, account);
                proof {
                    assert(self@ =~~= ledger_apply(old(self)@, client, tx, transaction));
                    assert(self.user_accounts@.dom() =~= old(self).user_accounts@.dom());
                }
            },
            None => {
                match UserAccount::new(tx, transaction) {
                    Some(account) => {
                        self.user_accounts.insert(client, account);
                        self.clients.push(client);
                        proof {
                            assert(self@ =~~= ledger_apply(old(self)@, client, tx, transaction));
                            assert(!old(self).clients@.contains(client));
                            let cl0 = old(self).clients@;
                            let cl1 = self.clients@;
                            assert(cl1 == cl0.push(client));
                            assert(forall|i: int| 0 <= i < cl0.len() ==> cl1[i] == cl0[i]);
                            assert(cl1[cl1.len() - 1] == client);
                            assert(cl1.no_duplicates()) by {
                                assert forall|i: int, j: int|
                                    0 <= i < j < cl1.len() implies cl1[i] != cl1[j] by {
                                    if j < cl0.len() {
                                    } else {
                                        assert(cl1[j] == client);
                                        assert(cl0.contains(cl0[i]));
                                    }
                                };
                            };
                            assert forall|c: u16|
                                self.user_accounts@.dom().contains(c) implies cl1.contains(c) by {
                                if c == client {
                                    assert(cl1[cl1.len() - 1] == c);
                                } else {
                                    assert(old(self).user_accounts@.dom().contains(c));
                                    assert(cl0.contains(c));
                                    let i = choose|i: int| 0 <= i < cl0.len() && cl0[i] == c;
                                    assert(cl1[i] == c);
                                }
                            };
                        }
                    },
                    None => {
                        proof {
                            assert(self@ =~~= ledger_apply(old(self)@, client, tx, transaction));
                        }
                    },
                }
            },
        }
        proof {
            lemma_ledger_apply_preserves_inv(old(self)@, client, tx, transaction);
        }
    }
}

} // verus!
