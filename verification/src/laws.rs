//! Laws the ledger obeys, each proved once and for all over the
//! mathematical state machine.
//!
//! `replay` folds `ledger_apply` over a whole transaction stream, so a
//! statement about `replay(txs)` for arbitrary `txs` covers every state the
//! ledger can ever reach (each intermediate state is the replay of a
//! prefix).

use crate::domain::{
    account_apply, account_inv, avail_sum, avail_weight, entry_avail, entry_held, entry_net,
    held_sum, held_weight, is_money_movement, ledger_apply, ledger_init, ledger_inv,
    lemma_ledger_apply_preserves_inv, net_weight, AccountView, LedgerView, Transaction,
    TransactionLog, TransactionState,
};
use crate::sums::{lemma_map_sum_add, lemma_map_sum_le};
use vstd::prelude::*;

verus! {

/// The ledger state after replaying a sequence of transactions, in order,
/// against an empty ledger. Each element carries the addressed client, the
/// transaction id, and the transaction.
pub open spec fn replay(txs: Seq<(u16, u32, Transaction)>) -> LedgerView
    decreases txs.len(),
{
    if txs.len() == 0 {
        ledger_init()
    } else {
        let prev = replay(txs.drop_last());
        ledger_apply(prev, txs.last().0, txs.last().1, txs.last().2)
    }
}

/// Every state reached by replaying any sequence of transactions is
/// well-formed: each account's balances are exactly the sums its log
/// prescribes, and no account has ever paid out more than was put in.
pub proof fn lemma_replay_wellformed(txs: Seq<(u16, u32, Transaction)>)
    ensures
        ledger_inv(replay(txs)),
    decreases txs.len(),
{
    if txs.len() > 0 {
        lemma_replay_wellformed(txs.drop_last());
        lemma_ledger_apply_preserves_inv(
            replay(txs.drop_last()),
            txs.last().0,
            txs.last().1,
            txs.last().2,
        );
    }
}

/// A log entry's combined contribution to available plus held.
pub open spec fn total_weight() -> spec_fn(TransactionLog) -> int {
    |e: TransactionLog| entry_avail(e) + entry_held(e)
}

/// In any well-formed ledger state, an account that is not locked has a
/// non-negative total: available plus held never goes below zero. (A
/// chargeback of a deposit can drive the total negative, but it also locks
/// the account for good, so no unlocked account ever shows it.)
pub proof fn lemma_unlocked_total_nonneg(l: LedgerView, client: u16)
    requires
        ledger_inv(l),
        l.accounts.dom().contains(client),
        !l.accounts[client].locked,
    ensures
        l.accounts[client].available + l.accounts[client].held >= 0,
{
    let a = l.accounts[client];
    assert(account_inv(a));
    assert forall|k: u32| a.log.dom().contains(k) implies total_weight()(a.log[k])
        == avail_weight()(a.log[k]) + held_weight()(a.log[k]) by {
        assert(entry_avail(a.log[k]) + entry_held(a.log[k]) == total_weight()(a.log[k]));
    };
    lemma_map_sum_add(a.log, avail_weight(), held_weight(), total_weight());
    assert forall|k: u32| a.log.dom().contains(k) implies net_weight()(a.log[k])
        <= total_weight()(a.log[k]) by {
        assert(a.log[k].state != TransactionState::Chargeback);
        assert(entry_net(a.log[k]) <= entry_avail(a.log[k]) + entry_held(a.log[k]));
    };
    lemma_map_sum_le(a.log, net_weight(), total_weight());
}

/// After replaying any sequence of transactions, every account's balances
/// match the sum of the rule effects recorded in its log, and an unlocked
/// account's total is never negative.
pub proof fn lemma_replay_balances(txs: Seq<(u16, u32, Transaction)>, client: u16)
    requires
        replay(txs).accounts.dom().contains(client),
    ensures
        replay(txs).accounts[client].available == avail_sum(replay(txs).accounts[client].log),
        replay(txs).accounts[client].held == held_sum(replay(txs).accounts[client].log),
        !replay(txs).accounts[client].locked ==> replay(txs).accounts[client].available + replay(
            txs,
        ).accounts[client].held >= 0,
{
    lemma_replay_wellformed(txs);
    if !replay(txs).accounts[client].locked {
        lemma_unlocked_total_nonneg(replay(txs), client);
    }
}

/// Reusing a money movement's transaction id is a pure no-op: once a
/// deposit or withdrawal has consumed an id, any later deposit or
/// withdrawal carrying the same id — addressed to any client — leaves the
/// ledger exactly as it was.
pub proof fn lemma_duplicate_id_ignored(
    l: LedgerView,
    c1: u16,
    c2: u16,
    tx: u32,
    t1: Transaction,
    t2: Transaction,
)
    requires
        is_money_movement(t1),
        is_money_movement(t2),
    ensures
        ledger_apply(ledger_apply(l, c1, tx, t1), c2, tx, t2) == ledger_apply(l, c1, tx, t1),
{
    let l1 = ledger_apply(l, c1, tx, t1);
    assert(l1.seen.contains(tx));
}

/// Disputing a resolved money movement and then resolving the dispute
/// restores the account exactly: available, held, lock flag and log all
/// return to their values before the dispute.
pub proof fn lemma_dispute_resolve_roundtrip(a: AccountView, tx: u32)
    requires
        !a.locked,
        a.log.dom().contains(tx),
        a.log[tx].state == TransactionState::Resolve,
    ensures
        account_apply(account_apply(a, tx, Transaction::Dispute), tx, Transaction::Resolve) == a,
{
    let a1 = account_apply(a, tx, Transaction::Dispute);
    let a2 = account_apply(a1, tx, Transaction::Resolve);
    assert(a1.log[tx].state == TransactionState::Dispute);
    assert(a2.log[tx] == a.log[tx]);
    assert(a2.log =~= a.log);
    assert(a2 =~~= a);
}

/// Once an account is locked, every later transaction addressed to its
/// client — whatever its kind or id — leaves every account unchanged; only
/// the set of consumed transaction ids can still grow.
pub proof fn lemma_locked_account_frozen(l: LedgerView, client: u16, tx: u32, t: Transaction)
    requires
        l.accounts.dom().contains(client),
        l.accounts[client].locked,
    ensures
        ledger_apply(l, client, tx, t).accounts == l.accounts,
{
    assert(account_apply(l.accounts[client], tx, t) == l.accounts[client]);
    assert(ledger_apply(l, client, tx, t).accounts =~~= l.accounts);
}

} // verus!
