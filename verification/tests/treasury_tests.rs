use guild_engine::guilds::GuildRegistry;
use guild_engine::treasury::{
    TransactionStatus, TransactionType, TreasuryRegistry,
};
use guild_engine::Error;

const GUILD_OWNER: u64 = 10;
const OWNER: u64 = 1;
const SIGNER1: u64 = 2;
const SIGNER2: u64 = 3;
const RECIPIENT: u64 = 7;

fn setup() -> (GuildRegistry, TreasuryRegistry, u64) {
    let mut guilds = GuildRegistry::new();
    let guild_id = guilds
        .create_guild("Test Guild".to_string(), "A test guild".to_string(), GUILD_OWNER, 1000)
        .unwrap();
    let mut treasuries = TreasuryRegistry::new();
    let treasury_id = treasuries
        .initialize_treasury(&guilds, guild_id, vec![OWNER, SIGNER1, SIGNER2], 2u32)
        .unwrap();
    (guilds, treasuries, treasury_id)
}

#[test]
fn test_treasury_initialize_and_deposit_accounting() {
    let (_guilds, mut treasuries, treasury_id) = setup();

    let amount: i128 = 500;
    let ok = treasuries.deposit(treasury_id, OWNER, amount, None, 1000).unwrap();
    assert!(ok);

    let bal = treasuries.get_balance(treasury_id, None);
    assert_eq!(bal, amount);

    let history = treasuries.get_transaction_history(treasury_id, 10u32);
    assert_eq!(history.len(), 1);
    let tx = &history[0];
    assert_eq!(tx.tx_type, TransactionType::Deposit);
    assert_eq!(tx.amount, amount);
    assert_eq!(tx.status, TransactionStatus::Executed);
}

#[test]
fn test_multisig_withdrawal_flow() {
    let (_guilds, mut treasuries, treasury_id) = setup();

    treasuries.deposit(treasury_id, OWNER, 2000i128, None, 1000).unwrap();

    let tx_id = treasuries
        .propose_withdrawal(
            treasury_id,
            SIGNER1,
            RECIPIENT,
            1500i128,
            None,
            "payout".to_string(),
            1000,
        )
        .unwrap();

    treasuries.approve_transaction(treasury_id, tx_id, SIGNER2, 1001).unwrap();
    treasuries.execute_transaction(treasury_id, tx_id, OWNER, 1002).unwrap();

    let bal = treasuries.get_balance(treasury_id, None);
    assert_eq!(bal, 500);

    let history = treasuries.get_transaction_history(treasury_id, 10u32);
    assert_eq!(history.len(), 2);
    assert_eq!(history[0].status, TransactionStatus::Executed);
    assert_eq!(history[1].status, TransactionStatus::Executed);
}

#[test]
#[should_panic]
fn test_multisig_threshold_not_met() {
    let (_guilds, mut treasuries, treasury_id) = setup();

    treasuries.deposit(treasury_id, OWNER, 2000i128, None, 1000).unwrap();

    let tx_id = treasuries
        .propose_withdrawal(
            treasury_id,
            SIGNER1,
            RECIPIENT,
            1500i128,
            None,
            "premature payout".to_string(),
            1000,
        )
        .unwrap();

    // 2 signatures are required and only the proposer has signed
    treasuries.execute_transaction(treasury_id, tx_id, OWNER, 1001).unwrap();
}

#[test]
#[should_panic]
fn test_multisig_timeout_expiration() {
    let (_guilds, mut treasuries, treasury_id) = setup();

    treasuries.deposit(treasury_id, OWNER, 2000i128, None, 1000).unwrap();

    let tx_id = treasuries
        .propose_withdrawal(
            treasury_id,
            SIGNER1,
            RECIPIENT,
            1500i128,
            None,
            "expired payout".to_string(),
            1000,
        )
        .unwrap();

    // the proposal expires 24h after creation
    treasuries
        .approve_transaction(treasury_id, tx_id, SIGNER2, 1000 + 86_401)
        .unwrap();
}

#[test]
#[should_panic]
fn test_budget_enforcement() {
    let (guilds, mut treasuries, treasury_id) = setup();

    treasuries.deposit(treasury_id, OWNER, 5000i128, None, 1000).unwrap();

    treasuries
        .set_budget(
            &guilds,
            treasury_id,
            "withdrawal".to_string(),
            1000i128,
            3600u64,
            OWNER,
            1000,
        )
        .unwrap();

    let tx1 = treasuries
        .propose_withdrawal(
            treasury_id,
            SIGNER1,
            RECIPIENT,
            800i128,
            None,
            "first".to_string(),
            1000,
        )
        .unwrap();
    treasuries.approve_transaction(treasury_id, tx1, SIGNER2, 1001).unwrap();
    treasuries.execute_transaction(treasury_id, tx1, OWNER, 1002).unwrap();

    let tx2 = treasuries
        .propose_withdrawal(
            treasury_id,
            SIGNER1,
            RECIPIENT,
            500i128,
            None,
            "second".to_string(),
            1003,
        )
        .unwrap();
    treasuries.approve_transaction(treasury_id, tx2, SIGNER2, 1004).unwrap();
    // 800 + 500 exceeds the 1000 budget inside the same window
    treasuries.execute_transaction(treasury_id, tx2, OWNER, 1005).unwrap();
}

#[test]
#[should_panic]
fn test_emergency_pause_blocks_new_ops() {
    let (_guilds, mut treasuries, treasury_id) = setup();

    treasuries.deposit(treasury_id, OWNER, 1000i128, None, 1000).unwrap();
    treasuries.emergency_pause(treasury_id, SIGNER1, true).unwrap();

    // the treasury is paused
    treasuries
        .propose_withdrawal(
            treasury_id,
            SIGNER1,
            RECIPIENT,
            100i128,
            None,
            "after pause".to_string(),
            1001,
        )
        .unwrap();
}

#[test]
fn test_budget_window_rolls_over() {
    let (guilds, mut treasuries, treasury_id) = setup();
    treasuries.deposit(treasury_id, OWNER, 5000i128, None, 1000).unwrap();
    treasuries
        .set_budget(
            &guilds,
            treasury_id,
            "withdrawal".to_string(),
            1000i128,
            3600u64,
            OWNER,
            1000,
        )
        .unwrap();
    let tx1 = treasuries
        .propose_withdrawal(
            treasury_id,
            SIGNER1,
            RECIPIENT,
            800i128,
            None,
            "first".to_string(),
            1000,
        )
        .unwrap();
    treasuries.approve_transaction(treasury_id, tx1, SIGNER2, 1001).unwrap();
    treasuries.execute_transaction(treasury_id, tx1, OWNER, 1002).unwrap();
    // after the window passes, spending resets and 500 fits again
    let tx2 = treasuries
        .propose_withdrawal(
            treasury_id,
            SIGNER1,
            RECIPIENT,
            500i128,
            None,
            "second".to_string(),
            1003,
        )
        .unwrap();
    treasuries.approve_transaction(treasury_id, tx2, SIGNER2, 1004).unwrap();
    treasuries
        .execute_transaction(treasury_id, tx2, OWNER, 1000 + 3600)
        .unwrap();
    assert_eq!(treasuries.get_balance(treasury_id, None), 3700);
}

#[test]
fn test_treasury_conservation_across_tokens() {
    let (_guilds, mut treasuries, treasury_id) = setup();
    let gold = Some(5u64);
    treasuries.deposit(treasury_id, OWNER, 300i128, None, 1000).unwrap();
    treasuries.deposit(treasury_id, SIGNER1, 700i128, gold, 1001).unwrap();
    treasuries.deposit(treasury_id, SIGNER2, 200i128, None, 1002).unwrap();
    let tx = treasuries
        .propose_withdrawal(
            treasury_id,
            SIGNER1,
            RECIPIENT,
            450i128,
            None,
            "mixed".to_string(),
            1003,
        )
        .unwrap();
    treasuries.approve_transaction(treasury_id, tx, SIGNER2, 1004).unwrap();
    treasuries.execute_transaction(treasury_id, tx, OWNER, 1005).unwrap();
    // per token: executed deposits minus executed withdrawals equal the balance
    assert_eq!(treasuries.get_balance(treasury_id, None), 300 + 200 - 450);
    assert_eq!(treasuries.get_balance(treasury_id, gold), 700);
    let history = treasuries.get_transaction_history(treasury_id, 10u32);
    assert_eq!(history.len(), 4);
}

#[test]
fn test_withdrawal_exceeding_balance_rejected() {
    let (_guilds, mut treasuries, treasury_id) = setup();
    treasuries.deposit(treasury_id, OWNER, 100i128, None, 1000).unwrap();
    let res = treasuries.propose_withdrawal(
        treasury_id,
        SIGNER1,
        RECIPIENT,
        101i128,
        None,
        "too much".to_string(),
        1001,
    );
    assert_eq!(res, Err(Error::InvalidInput));
    // non-signers may not propose
    let res = treasuries.propose_withdrawal(
        treasury_id,
        RECIPIENT,
        RECIPIENT,
        50i128,
        None,
        "outsider".to_string(),
        1001,
    );
    assert_eq!(res, Err(Error::Unauthorized));
    // deposits must be positive
    assert_eq!(
        treasuries.deposit(treasury_id, OWNER, 0i128, None, 1002),
        Err(Error::InvalidInput)
    );
}

#[test]
fn test_approval_reaches_threshold_exactly() {
    let (_guilds, mut treasuries, treasury_id) = setup();
    treasuries.deposit(treasury_id, OWNER, 1000i128, None, 1000).unwrap();
    let tx = treasuries
        .propose_withdrawal(
            treasury_id,
            SIGNER1,
            RECIPIENT,
            100i128,
            None,
            "exact".to_string(),
            1000,
        )
        .unwrap();
    // duplicate approval by the proposer is refused
    assert_eq!(
        treasuries.approve_transaction(treasury_id, tx, SIGNER1, 1001),
        Err(Error::DuplicateState)
    );
    treasuries.approve_transaction(treasury_id, tx, SIGNER2, 1001).unwrap();
    let history = treasuries.get_transaction_history(treasury_id, 10u32);
    assert_eq!(history[1].status, TransactionStatus::Approved);
    assert_eq!(history[1].signatures.len(), 2);
}

#[test]
fn test_milestone_payment_and_allowance() {
    let (_guilds, mut treasuries, treasury_id) = setup();
    treasuries.deposit(treasury_id, OWNER, 1000i128, None, 1000).unwrap();
    let tx = treasuries
        .execute_milestone_payment(
            treasury_id,
            SIGNER1,
            RECIPIENT,
            250i128,
            None,
            "milestone one".to_string(),
            1001,
        )
        .unwrap();
    assert_eq!(tx, 2);
    assert_eq!(treasuries.get_balance(treasury_id, None), 750);
    let allow_tx = treasuries
        .grant_allowance(treasury_id, OWNER, RECIPIENT, 100i128, None, 1002)
        .unwrap();
    assert_eq!(allow_tx, 3);
    // an allowance grant moves no balance
    assert_eq!(treasuries.get_balance(treasury_id, None), 750);
    let history = treasuries.get_transaction_history(treasury_id, 10u32);
    assert_eq!(history[1].tx_type, TransactionType::MilestonePayment);
    assert_eq!(history[2].tx_type, TransactionType::AllowanceGrant);
}

#[test]
fn test_initialize_treasury_requires_guild_and_safe_threshold() {
    let guilds = GuildRegistry::new();
    let mut treasuries = TreasuryRegistry::new();
    assert_eq!(
        treasuries.initialize_treasury(&guilds, 1, vec![OWNER, SIGNER1, SIGNER2], 2u32),
        Err(Error::NotFound)
    );
    let mut guilds = GuildRegistry::new();
    let guild_id = guilds
        .create_guild("G".to_string(), "d".to_string(), GUILD_OWNER, 0)
        .unwrap();
    assert_eq!(
        treasuries.initialize_treasury(&guilds, guild_id, vec![OWNER, SIGNER1, SIGNER2], 1u32),
        Err(Error::InvalidInput)
    );
}

#[test]
fn test_transaction_history_limit() {
    let (_guilds, mut treasuries, treasury_id) = setup();
    for i in 0..5 {
        treasuries
            .deposit(treasury_id, OWNER, 10i128 + i, None, 1000 + i as u64)
            .unwrap();
    }
    let history = treasuries.get_transaction_history(treasury_id, 3u32);
    assert_eq!(history.len(), 3);
    // the newest entries are kept, oldest first
    assert_eq!(history[0].id, 3);
    assert_eq!(history[2].id, 5);
}
