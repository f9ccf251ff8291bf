use bank_ledger::{
    Account, Bank, Diagnostic, EngineError, Ledger, LookupError, Transaction, TransactionStatus,
    TransactionType, MAX_TRANSACTIONS,
};

fn deposit(client_id: u16, id: u32, amount: i64) -> Transaction {
    Transaction { tx_type: TransactionType::Deposit, client_id, id, amount: Some(amount) }
}

fn withdrawal(client_id: u16, id: u32, amount: i64) -> Transaction {
    Transaction { tx_type: TransactionType::Withdrawal, client_id, id, amount: Some(amount) }
}

fn dispute(client_id: u16, id: u32) -> Transaction {
    Transaction { tx_type: TransactionType::Dispute, client_id, id, amount: None }
}

fn resolve(client_id: u16, id: u32) -> Transaction {
    Transaction { tx_type: TransactionType::Resolve, client_id, id, amount: None }
}

fn chargeback(client_id: u16, id: u32) -> Transaction {
    Transaction { tx_type: TransactionType::Chargeback, client_id, id, amount: None }
}

fn account_of(bank: &Bank, client_id: u16) -> Account {
    match bank.ledger().get_account(client_id) {
        Some(account) => account,
        None => panic!("client {} has no account", client_id),
    }
}

fn assert_balanced(bank: &Bank) {
    for account in bank.accounts() {
        assert_eq!(account.total, account.available + account.held);
    }
}

#[test]
fn new_bank_is_empty() {
    let bank = Bank::new();
    assert_eq!(bank.accounts().len(), 0);
    assert_eq!(bank.diagnostics().len(), 0);
    assert_eq!(bank.accepted(), 0);
    assert_eq!(bank.ledger().get_account(1), None);
    assert_eq!(bank.ledger().get_transaction(1), None);
}

#[test]
fn deposits_leave_everything_available() {
    let mut bank = Bank::new();
    let batch = vec![
        deposit(1, 1, 300_000),
        deposit(2, 2, 15),
        deposit(1, 3, 1),
        deposit(3, 4, 0),
        deposit(2, 5, 70_000),
    ];
    assert_eq!(bank.batch_process(batch), Ok(()));

    assert_eq!(bank.accounts().len(), 3);
    for account in bank.accounts() {
        assert_eq!(account.held, 0);
        assert_eq!(account.available, account.total);
        assert!(!account.locked);
    }
    assert_eq!(account_of(&bank, 1).available, 300_001);
    assert_eq!(account_of(&bank, 2).available, 70_015);
    assert_eq!(account_of(&bank, 3).available, 0);
    assert_eq!(bank.accepted(), 5);
}

#[test]
fn accounts_stay_balanced_after_every_transaction() {
    let mut bank = Bank::new();
    let batch = vec![
        deposit(1, 1, 1_000),
        deposit(2, 2, 500),
        withdrawal(1, 3, 400),
        dispute(1, 1),
        withdrawal(1, 4, 10_000),
        resolve(1, 1),
        dispute(2, 2),
        chargeback(2, 2),
        dispute(1, 3),
        chargeback(1, 3),
        deposit(2, 5, 9),
        resolve(3, 77),
    ];
    for transaction in batch {
        assert_eq!(bank.process_transaction(transaction), Ok(()));
        assert_balanced(&bank);
    }
    assert_eq!(
        account_of(&bank, 1),
        Account { client_id: 1, available: 200, held: 0, total: 200, locked: true }
    );
    assert_eq!(
        account_of(&bank, 2),
        Account { client_id: 2, available: 9, held: 0, total: 9, locked: true }
    );
    assert_eq!(account_of(&bank, 3), Account::new(3));
}

#[test]
fn dispute_moves_the_amount_from_available_to_held() {
    let mut bank = Bank::new();
    assert_eq!(bank.batch_process(vec![deposit(7, 1, 250), deposit(7, 2, 100)]), Ok(()));

    assert_eq!(bank.process_transaction(dispute(7, 2)), Ok(()));

    assert_eq!(
        account_of(&bank, 7),
        Account { client_id: 7, available: 250, held: 100, total: 350, locked: false }
    );
    assert_eq!(
        bank.ledger().get_transaction(2),
        Some((deposit(7, 2, 100), TransactionStatus::Disputed))
    );
    assert_eq!(
        bank.ledger().get_transaction(1),
        Some((deposit(7, 1, 250), TransactionStatus::Processed))
    );
    assert_eq!(bank.diagnostics().len(), 0);
}

#[test]
fn resolve_undoes_a_dispute() {
    let mut bank = Bank::new();
    assert_eq!(bank.batch_process(vec![deposit(7, 1, 250), withdrawal(7, 2, 100)]), Ok(()));
    let before = account_of(&bank, 7);
    let record_before = bank.ledger().get_transaction(2);

    assert_eq!(bank.process_transaction(dispute(7, 2)), Ok(()));
    assert_ne!(account_of(&bank, 7), before);
    assert_eq!(bank.process_transaction(resolve(7, 2)), Ok(()));

    assert_eq!(account_of(&bank, 7), before);
    assert_eq!(bank.ledger().get_transaction(2), record_before);
    assert_eq!(bank.accounts().len(), 1);
    assert_eq!(bank.diagnostics().len(), 0);
}

#[test]
fn chargeback_removes_the_amount_and_locks_for_good() {
    let mut bank = Bank::new();
    assert_eq!(
        bank.batch_process(vec![deposit(4, 1, 800), deposit(4, 2, 200), dispute(4, 2)]),
        Ok(())
    );
    assert_eq!(
        account_of(&bank, 4),
        Account { client_id: 4, available: 800, held: 200, total: 1_000, locked: false }
    );

    assert_eq!(bank.process_transaction(chargeback(4, 2)), Ok(()));
    assert_eq!(
        account_of(&bank, 4),
        Account { client_id: 4, available: 800, held: 0, total: 800, locked: true }
    );
    assert_eq!(
        bank.ledger().get_transaction(2),
        Some((deposit(4, 2, 200), TransactionStatus::Processed))
    );

    let later = vec![
        deposit(4, 3, 50),
        withdrawal(4, 4, 20),
        dispute(4, 1),
        resolve(4, 1),
        dispute(4, 9),
        deposit(5, 10, 1),
    ];
    for transaction in later {
        assert_eq!(bank.process_transaction(transaction), Ok(()));
        assert!(account_of(&bank, 4).locked);
    }
    assert!(!account_of(&bank, 5).locked);
}

#[test]
fn locked_account_still_takes_transactions() {
    let mut bank = Bank::new();
    let batch = vec![
        deposit(4, 1, 800),
        dispute(4, 1),
        chargeback(4, 1),
        deposit(4, 2, 50),
        withdrawal(4, 3, 20),
    ];
    assert_eq!(bank.batch_process(batch), Ok(()));
    assert_eq!(
        account_of(&bank, 4),
        Account { client_id: 4, available: 30, held: 0, total: 30, locked: true }
    );
}

#[test]
fn withdrawal_of_more_than_available_records_nothing() {
    let mut bank = Bank::new();
    assert_eq!(bank.batch_process(vec![deposit(5, 1, 300), dispute(5, 1)]), Ok(()));
    assert_eq!(bank.process_transaction(deposit(5, 2, 40)), Ok(()));
    let before = account_of(&bank, 5);

    // 41 is more than the 40 available, though less than the total of 340.
    assert_eq!(bank.process_transaction(withdrawal(5, 3, 41)), Ok(()));

    assert_eq!(account_of(&bank, 5), before);
    assert_eq!(bank.ledger().get_transaction(3), None);
    assert_eq!(bank.diagnostics().len(), 0);
    // A dispute of the withdrawal that never happened finds nothing.
    assert_eq!(bank.process_transaction(dispute(5, 3)), Ok(()));
    assert_eq!(
        bank.diagnostics(),
        &vec![Diagnostic { id: 3, error: LookupError::NotFound }]
    );
}

#[test]
fn withdrawal_of_all_that_is_available_goes_through() {
    let mut bank = Bank::new();
    assert_eq!(bank.batch_process(vec![deposit(5, 1, 300), withdrawal(5, 2, 300)]), Ok(()));
    assert_eq!(account_of(&bank, 5), Account::new(5));
    assert_eq!(
        bank.ledger().get_transaction(2),
        Some((withdrawal(5, 2, 300), TransactionStatus::Processed))
    );
}

#[test]
fn withdrawal_by_an_unseen_client_opens_an_empty_account() {
    let mut bank = Bank::new();
    assert_eq!(bank.process_transaction(withdrawal(9, 1, 1)), Ok(()));
    assert_eq!(bank.accounts(), &vec![Account::new(9)]);
    assert_eq!(bank.ledger().get_transaction(1), None);
}

#[test]
fn failed_lookups_change_nothing_and_the_batch_goes_on() {
    let mut bank = Bank::new();
    assert_eq!(bank.batch_process(vec![deposit(1, 1, 100), deposit(2, 2, 60)]), Ok(()));
    let first = account_of(&bank, 1);
    let second = account_of(&bank, 2);

    let batch = vec![
        dispute(1, 99),
        resolve(1, 99),
        chargeback(1, 99),
        dispute(2, 1),
        resolve(1, 1),
        chargeback(1, 1),
        deposit(1, 3, 5),
    ];
    assert_eq!(bank.batch_process(batch), Ok(()));

    assert_eq!(
        bank.diagnostics(),
        &vec![
            Diagnostic { id: 99, error: LookupError::NotFound },
            Diagnostic { id: 99, error: LookupError::NotFound },
            Diagnostic { id: 99, error: LookupError::NotFound },
            Diagnostic { id: 1, error: LookupError::ClientMismatch },
            Diagnostic { id: 1, error: LookupError::WrongStatus },
            Diagnostic { id: 1, error: LookupError::WrongStatus },
        ]
    );
    assert_eq!(account_of(&bank, 2), second);
    assert_eq!(
        account_of(&bank, 1),
        Account { available: first.available + 5, total: first.total + 5, ..first }
    );
    assert_eq!(
        bank.ledger().get_transaction(1),
        Some((deposit(1, 1, 100), TransactionStatus::Processed))
    );
    assert_eq!(bank.accepted(), 9);
}

#[test]
fn dispute_of_a_disputed_transaction_is_dropped() {
    let mut bank = Bank::new();
    assert_eq!(
        bank.batch_process(vec![deposit(1, 1, 100), dispute(1, 1), dispute(1, 1)]),
        Ok(())
    );
    assert_eq!(
        account_of(&bank, 1),
        Account { client_id: 1, available: 0, held: 100, total: 100, locked: false }
    );
    assert_eq!(
        bank.diagnostics(),
        &vec![Diagnostic { id: 1, error: LookupError::WrongStatus }]
    );
}

#[test]
fn client_mismatch_is_reported_before_wrong_status() {
    let mut bank = Bank::new();
    assert_eq!(bank.batch_process(vec![deposit(1, 1, 100), resolve(2, 1)]), Ok(()));
    assert_eq!(
        bank.diagnostics(),
        &vec![Diagnostic { id: 1, error: LookupError::ClientMismatch }]
    );
}

#[test]
fn batch_stops_at_the_first_missing_amount() {
    let mut bank = Bank::new();
    let batch = vec![
        deposit(1, 1, 100),
        Transaction { tx_type: TransactionType::Withdrawal, client_id: 2, id: 2, amount: None },
        deposit(1, 3, 50),
        deposit(3, 4, 50),
    ];

    let result = bank.batch_process(batch);

    assert_eq!(result, Err(String::from("Invalid transaction data: missing amount")));
    assert_eq!(
        bank.accounts(),
        &vec![
            Account { client_id: 1, available: 100, held: 0, total: 100, locked: false },
            Account::new(2),
        ]
    );
    assert_eq!(bank.ledger().get_transaction(3), None);
    assert_eq!(bank.ledger().get_transaction(4), None);
    assert_eq!(bank.accepted(), 1);
}

#[test]
fn missing_amount_keeps_the_clients_account() {
    let mut bank = Bank::new();
    assert_eq!(bank.process_transaction(deposit(1, 1, 100)), Ok(()));
    let before = account_of(&bank, 1);

    let refused = bank.process_transaction(Transaction {
        tx_type: TransactionType::Deposit,
        client_id: 1,
        id: 2,
        amount: None,
    });

    assert_eq!(refused, Err(EngineError::MissingAmount));
    assert_eq!(account_of(&bank, 1), before);
    assert_eq!(bank.accounts().len(), 1);
    assert_eq!(bank.ledger().get_transaction(2), None);
    assert_eq!(bank.accepted(), 1);
}

#[test]
fn dispute_family_needs_no_amount_and_ignores_one() {
    let mut bank = Bank::new();
    assert_eq!(bank.process_transaction(deposit(1, 1, 100)), Ok(()));
    let with_amount =
        Transaction { tx_type: TransactionType::Dispute, client_id: 1, id: 1, amount: Some(7) };
    assert_eq!(bank.process_transaction(with_amount), Ok(()));
    assert_eq!(
        account_of(&bank, 1),
        Account { client_id: 1, available: 0, held: 100, total: 100, locked: false }
    );
}

#[test]
fn engine_error_in_words() {
    assert_eq!(
        EngineError::MissingAmount.message(),
        String::from("Invalid transaction data: missing amount")
    );
}

#[test]
fn reused_id_replaces_the_earlier_record() {
    let mut bank = Bank::new();
    assert_eq!(
        bank.batch_process(vec![deposit(1, 1, 100), deposit(2, 1, 30), dispute(1, 1), dispute(2, 1)]),
        Ok(())
    );
    assert_eq!(
        bank.diagnostics(),
        &vec![Diagnostic { id: 1, error: LookupError::ClientMismatch }]
    );
    assert_eq!(
        account_of(&bank, 1),
        Account { client_id: 1, available: 100, held: 0, total: 100, locked: false }
    );
    assert_eq!(
        account_of(&bank, 2),
        Account { client_id: 2, available: 0, held: 30, total: 30, locked: false }
    );
}

#[test]
fn dispute_of_a_spent_deposit_drives_available_below_zero() {
    let mut bank = Bank::new();
    assert_eq!(
        bank.batch_process(vec![deposit(1, 1, 100), withdrawal(1, 2, 80), dispute(1, 1)]),
        Ok(())
    );
    assert_eq!(
        account_of(&bank, 1),
        Account { client_id: 1, available: -80, held: 100, total: 20, locked: false }
    );
    assert_eq!(bank.process_transaction(chargeback(1, 1)), Ok(()));
    assert_eq!(
        account_of(&bank, 1),
        Account { client_id: 1, available: -80, held: 0, total: -80, locked: true }
    );
}

#[test]
fn balances_grow_past_sixty_four_bits() {
    let mut bank = Bank::new();
    assert_eq!(
        bank.batch_process(vec![
            deposit(1, 1, i64::MAX),
            deposit(1, 2, i64::MAX),
            deposit(1, 3, i64::MAX),
        ]),
        Ok(())
    );
    let expected = 3 * (i64::MAX as i128);
    assert_eq!(
        account_of(&bank, 1),
        Account { client_id: 1, available: expected, held: 0, total: expected, locked: false }
    );
    assert_eq!(bank.process_transaction(withdrawal(1, 4, i64::MIN)), Ok(()));
    assert_eq!(account_of(&bank, 1).available, expected - (i64::MIN as i128));
}

#[test]
fn accounts_keep_the_order_in_which_they_were_opened() {
    let mut bank = Bank::new();
    assert_eq!(
        bank.batch_process(vec![
            deposit(3, 1, 1),
            dispute(1, 1),
            deposit(2, 2, 2),
            deposit(3, 3, 3),
            withdrawal(1, 4, 0),
        ]),
        Ok(())
    );
    let clients: Vec<u16> = bank.accounts().iter().map(|account| account.client_id).collect();
    assert_eq!(clients, vec![3, 1, 2]);
}

#[test]
fn bank_over_a_ledger_starts_from_its_accounts() {
    let mut ledger = Ledger::new();
    ledger.put_account(Account {
        client_id: 1,
        available: i64::MAX as i128,
        held: i64::MIN as i128,
        total: -1,
        locked: true,
    });
    let bank = match Bank::with_ledger(ledger) {
        Some(bank) => bank,
        None => panic!("the ledger is sound"),
    };
    assert_eq!(bank.accepted(), 0);
    assert_eq!(bank.diagnostics().len(), 0);
    assert_eq!(bank.accounts().len(), 1);
    assert_eq!(account_of(&bank, 1).total, -1);
}

#[test]
fn no_bank_over_an_unbalanced_ledger() {
    let mut ledger = Ledger::new();
    ledger.put_account(Account::new(1));
    ledger.put_account(Account { client_id: 2, available: 5, held: 10, total: 16, locked: false });
    assert!(Bank::with_ledger(ledger).is_none());
}

#[test]
fn no_bank_over_a_balance_beyond_sixty_four_bits() {
    let mut ledger = Ledger::new();
    let beyond = i64::MAX as i128 + 1;
    ledger.put_account(Account {
        client_id: 2,
        available: beyond,
        held: 0,
        total: beyond,
        locked: false,
    });
    assert!(Bank::with_ledger(ledger).is_none());

    let mut ledger = Ledger::new();
    let below = i64::MIN as i128 - 1;
    ledger.put_account(Account { client_id: 2, available: 0, held: below, total: below, locked: false });
    assert!(Bank::with_ledger(ledger).is_none());

    let mut ledger = Ledger::new();
    ledger.put_account(Account {
        client_id: 2,
        available: i64::MAX as i128,
        held: 1,
        total: beyond,
        locked: false,
    });
    assert!(Bank::with_ledger(ledger).is_none());
}

#[test]
fn record_moves_between_processed_and_disputed() {
    let mut bank = Bank::new();
    let status = |bank: &Bank| bank.ledger().get_transaction(1).map(|record| record.1);

    assert_eq!(bank.process_transaction(deposit(1, 1, 100)), Ok(()));
    assert_eq!(status(&bank), Some(TransactionStatus::Processed));
    assert_eq!(bank.process_transaction(resolve(1, 1)), Ok(()));
    assert_eq!(status(&bank), Some(TransactionStatus::Processed));
    assert_eq!(bank.process_transaction(chargeback(1, 1)), Ok(()));
    assert_eq!(status(&bank), Some(TransactionStatus::Processed));
    assert_eq!(bank.process_transaction(dispute(1, 1)), Ok(()));
    assert_eq!(status(&bank), Some(TransactionStatus::Disputed));
    assert_eq!(bank.process_transaction(resolve(1, 1)), Ok(()));
    assert_eq!(status(&bank), Some(TransactionStatus::Processed));
    assert_eq!(bank.process_transaction(dispute(1, 1)), Ok(()));
    assert_eq!(status(&bank), Some(TransactionStatus::Disputed));
    assert_eq!(bank.process_transaction(chargeback(1, 1)), Ok(()));
    assert_eq!(status(&bank), Some(TransactionStatus::Processed));

    assert_eq!(
        bank.ledger().get_transaction(1),
        Some((deposit(1, 1, 100), TransactionStatus::Processed))
    );
    assert_eq!(
        bank.diagnostics(),
        &vec![
            Diagnostic { id: 1, error: LookupError::WrongStatus },
            Diagnostic { id: 1, error: LookupError::WrongStatus },
        ]
    );
    assert_eq!(
        account_of(&bank, 1),
        Account { client_id: 1, available: 0, held: 0, total: 0, locked: true }
    );
}

#[test]
fn disputed_deposit_takes_no_balance_below_zero() {
    for closing in [resolve(3, 2), chargeback(3, 2)] {
        let mut bank = Bank::new();
        assert_eq!(bank.process_transaction(deposit(3, 1, 40)), Ok(()));
        for transaction in [deposit(3, 2, 25), dispute(3, 2), closing] {
            assert_eq!(bank.process_transaction(transaction), Ok(()));
            assert!(account_of(&bank, 3).available >= 0);
            assert!(account_of(&bank, 3).held >= 0);
        }
        assert_eq!(account_of(&bank, 3).held, 0);
        assert_eq!(account_of(&bank, 3).available, account_of(&bank, 3).total);
    }
}

#[test]
fn transaction_limit_is_the_largest_count() {
    assert_eq!(MAX_TRANSACTIONS, u64::MAX);
}
