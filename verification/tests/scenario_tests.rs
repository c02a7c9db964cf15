use ledger::domain::{
    Accounts, Transaction, TransactionActionState, TransactionLog, TransactionState, UserAccount,
};
use std::collections::HashMap;

#[test]
fn disputed_withdrawal_should_be_resolved_without_touching_available() {
    let mut accounts = Accounts::new();
    accounts.add_transaction(1, 1, Transaction::Deposit { amount: 100 });
    accounts.add_transaction(1, 2, Transaction::Withdrawal { amount: 40 });
    accounts.add_transaction(1, 2, Transaction::Dispute);

    let disputed = accounts.get_user_account(1).unwrap();
    assert_eq!(disputed.available, 60);
    assert_eq!(disputed.held, 40);

    accounts.add_transaction(1, 2, Transaction::Resolve);
    assert_eq!(
        accounts.get_user_account(1),
        Some(&UserAccount {
            available: 60,
            held: 0,
            locked: false,
            transaction_log: HashMap::from([
                (
                    1,
                    TransactionLog {
                        amount: TransactionActionState::Deposit { amount: 100 },
                        state: TransactionState::Resolve,
                    },
                ),
                (
                    2,
                    TransactionLog {
                        amount: TransactionActionState::Withdrawal { amount: 40 },
                        state: TransactionState::Resolve,
                    },
                ),
            ]),
        })
    );
}

#[test]
fn charged_back_deposit_after_withdrawal_drives_total_negative_and_locks() {
    let mut accounts = Accounts::new();
    accounts.add_transaction(1, 1, Transaction::Deposit { amount: 100 });
    accounts.add_transaction(1, 2, Transaction::Withdrawal { amount: 100 });
    accounts.add_transaction(1, 1, Transaction::Dispute);
    accounts.add_transaction(1, 1, Transaction::Chargeback);

    let account = accounts.get_user_account(1).unwrap();
    assert_eq!(account.available, -100);
    assert_eq!(account.held, 0);
    assert!(account.locked);
}

#[test]
fn dispute_resolve_and_chargeback_are_noops_without_an_eligible_entry() {
    let mut accounts = Accounts::new();
    accounts.add_transaction(1, 1, Transaction::Deposit { amount: 100 });
    // Unknown transaction id.
    accounts.add_transaction(1, 7, Transaction::Dispute);
    // Not disputed, so neither of these may fire.
    accounts.add_transaction(1, 1, Transaction::Resolve);
    accounts.add_transaction(1, 1, Transaction::Chargeback);

    assert_eq!(
        accounts.get_user_account(1),
        Some(&UserAccount {
            available: 100,
            held: 0,
            locked: false,
            transaction_log: HashMap::from([(
                1,
                TransactionLog {
                    amount: TransactionActionState::Deposit { amount: 100 },
                    state: TransactionState::Resolve,
                },
            )]),
        })
    );
}

#[test]
fn withdrawal_to_unknown_client_is_dropped_but_consumes_its_id() {
    let mut accounts = Accounts::new();
    accounts.add_transaction(1, 1, Transaction::Withdrawal { amount: 50 });
    assert_eq!(accounts.get_user_account(1), None);

    // The id was claimed by the dropped withdrawal, so this deposit is
    // ignored entirely and no account is created.
    accounts.add_transaction(1, 1, Transaction::Deposit { amount: 100 });
    assert_eq!(accounts.get_user_account(1), None);

    // A fresh id works as usual.
    accounts.add_transaction(1, 2, Transaction::Deposit { amount: 100 });
    assert_eq!(accounts.get_user_account(1).unwrap().available, 100);
}

#[test]
fn withdrawal_exceeding_mixed_deposits_is_rejected() {
    let mut accounts = Accounts::new();
    accounts.add_transaction(1, 1, Transaction::Deposit { amount: 100 });
    accounts.add_transaction(1, 2, Transaction::Deposit { amount: 1000 });
    accounts.add_transaction(1, 3, Transaction::Withdrawal { amount: 1500 });

    let account = accounts.get_user_account(1).unwrap();
    assert_eq!(account.available, 1100);
    assert_eq!(account.held, 0);
    assert!(!account.locked);
    // The rejected withdrawal left no log entry behind.
    assert_eq!(account.transaction_log.len(), 2);
}

#[test]
fn duplicate_id_is_ignored_across_clients() {
    let mut accounts = Accounts::new();
    accounts.add_transaction(1, 1, Transaction::Deposit { amount: 100 });
    // Another client reusing the id gets nothing: no account is created.
    accounts.add_transaction(2, 1, Transaction::Deposit { amount: 999 });

    assert_eq!(accounts.get_user_account(1).unwrap().available, 100);
    assert_eq!(accounts.get_user_account(2), None);
}

#[test]
fn available_plus_held_stays_nonnegative_while_unlocked() {
    let mut accounts = Accounts::new();
    let stream = [
        (1, 1, Transaction::Deposit { amount: 100 }),
        (1, 2, Transaction::Withdrawal { amount: 100 }),
        (1, 2, Transaction::Dispute),
        (1, 1, Transaction::Dispute),
        (1, 2, Transaction::Resolve),
        (1, 1, Transaction::Resolve),
        (1, 3, Transaction::Withdrawal { amount: 30 }),
        (2, 4, Transaction::Deposit { amount: 5 }),
        (2, 5, Transaction::Withdrawal { amount: 5 }),
        (2, 5, Transaction::Dispute),
        (2, 5, Transaction::Chargeback),
    ];
    for (client, tx, transaction) in stream {
        accounts.add_transaction(client, tx, transaction);
        for (client, account) in accounts.get_user_accounts() {
            if !account.locked {
                assert!(
                    account.available + account.held >= 0,
                    "client {} went negative",
                    client
                );
            }
        }
    }
}

#[test]
fn empty_ledger_has_no_accounts() {
    let mut accounts = Accounts::new();
    assert_eq!(accounts.get_user_account(1), None);
    assert!(accounts.get_user_accounts().is_empty());
    // A lone dispute cannot create an account either.
    accounts.add_transaction(1, 1, Transaction::Dispute);
    assert_eq!(accounts.get_user_account(1), None);
}

#[test]
fn largest_amounts_are_handled_exactly() {
    let mut accounts = Accounts::new();
    accounts.add_transaction(1, 1, Transaction::Deposit { amount: u64::MAX });
    accounts.add_transaction(1, 2, Transaction::Deposit { amount: u64::MAX });
    accounts.add_transaction(1, 2, Transaction::Dispute);

    let account = accounts.get_user_account(1).unwrap();
    assert_eq!(account.available, u64::MAX as i128);
    assert_eq!(account.held, u64::MAX as i128);

    accounts.add_transaction(1, 3, Transaction::Withdrawal { amount: u64::MAX });
    let account = accounts.get_user_account(1).unwrap();
    assert_eq!(account.available, 0);
    assert_eq!(account.held, u64::MAX as i128);
}

#[test]
fn get_user_accounts_lists_every_account_once() {
    let mut accounts = Accounts::new();
    accounts.add_transaction(7, 1, Transaction::Deposit { amount: 10 });
    accounts.add_transaction(3, 2, Transaction::Deposit { amount: 20 });
    accounts.add_transaction(7, 3, Transaction::Deposit { amount: 30 });

    let listed = accounts.get_user_accounts();
    assert_eq!(listed.len(), 2);
    let mut ids: Vec<u16> = listed.iter().map(|p| p.0).collect();
    ids.sort();
    assert_eq!(ids, vec![3, 7]);
    for (client, account) in listed {
        match client {
            7 => assert_eq!(account.available, 40),
            3 => assert_eq!(account.available, 20),
            _ => panic!("unexpected client {}", client),
        }
    }
}
