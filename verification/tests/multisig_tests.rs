use guild_engine::governance::{
    ExecutionPayload, GovernanceRegistry, ProposalStatus, ProposalType,
};
use guild_engine::guilds::GuildRegistry;
use guild_engine::multisig::{
    MultiSigRegistry, OperationStatus, OperationType,
};
use guild_engine::tally::VoteDecision;
use guild_engine::treasury::TreasuryRegistry;
use guild_engine::{Error, TIMEOUT_24H, TIMEOUT_48H};

const OWNER: u64 = 1;
const SIGNER1: u64 = 2;
const SIGNER2: u64 = 3;

fn register_ms_account(ms: &mut MultiSigRegistry) -> u64 {
    ms.ms_register_account(OWNER, vec![SIGNER1, SIGNER2], 2u32).unwrap()
}

#[test]
fn test_register_and_propose() {
    let mut ms = MultiSigRegistry::new();
    let account_id = register_ms_account(&mut ms);

    let op_id = ms
        .ms_propose_operation(
            account_id,
            OperationType::TreasuryWithdrawal,
            "Test Tx".to_string(),
            OWNER,
            0,
        )
        .unwrap();

    let op = ms.ms_get_operation_status(op_id).unwrap();
    assert_eq!(op.status, OperationStatus::Pending);
    assert_eq!(op.signatures.len(), 1); // the proposer signs implicitly
}

#[test]
fn test_signing_and_execution() {
    let mut ms = MultiSigRegistry::new();
    let account_id = register_ms_account(&mut ms);

    let op_id = ms
        .ms_propose_operation(
            account_id,
            OperationType::TreasuryWithdrawal,
            "Test Tx".to_string(),
            OWNER,
            0,
        )
        .unwrap();

    // signer 1 signs (threshold is 2, so this meets it)
    ms.ms_sign_operation(op_id, SIGNER1, 1).unwrap();

    ms.ms_execute_operation(op_id, SIGNER2, 2).unwrap();

    let op = ms.ms_get_operation_status(op_id).unwrap();
    assert_eq!(op.status, OperationStatus::Executed);

    // replay protection: the account nonce was incremented
    let account = ms.ms_get_safe_account(account_id).unwrap();
    assert_eq!(account.nonce, 1);
}

#[test]
fn test_pending_ops_and_sweep_expired() {
    let mut ms = MultiSigRegistry::new();
    let account_id = register_ms_account(&mut ms);

    let now: u64 = 0;
    let op_id = ms
        .ms_propose_operation(
            account_id,
            OperationType::EmergencyAction,
            "Sweep me".to_string(),
            OWNER,
            now,
        )
        .unwrap();

    // the default policy timeout is 48h; move past it before sweeping
    let later = now + TIMEOUT_48H + 1;
    let swept = ms.ms_sweep_expired_operations(account_id, later);
    assert_eq!(swept, 1);

    let op = ms.ms_get_operation_status(op_id).unwrap();
    assert_eq!(op.status, OperationStatus::Expired);
    let pending = ms.ms_get_pending_operations(account_id, later);
    assert_eq!(pending.len(), 0);
}

#[test]
fn test_policy_require_owner_signature() {
    let mut ms = MultiSigRegistry::new();
    let account_id = register_ms_account(&mut ms);

    // require the owner's signature for governance updates
    ms.ms_set_operation_policy(
        account_id,
        OperationType::GovernanceUpdate,
        2u32,
        false,
        TIMEOUT_24H,
        true,
        OWNER,
    )
    .unwrap();

    let op_id = ms
        .ms_propose_operation(
            account_id,
            OperationType::GovernanceUpdate,
            "gov gate".to_string(),
            SIGNER1,
            0,
        )
        .unwrap();
    ms.ms_sign_operation(op_id, SIGNER2, 1).unwrap();

    // without the owner's signature, execution is refused
    assert_eq!(
        ms.ms_execute_operation(op_id, SIGNER2, 2),
        Err(Error::MissingOwnerSignature)
    );

    ms.ms_sign_operation(op_id, OWNER, 3).unwrap();
    assert!(ms.ms_execute_operation(op_id, SIGNER2, 4).is_ok());
}

#[test]
fn test_list_accounts_by_owner() {
    let mut ms = MultiSigRegistry::new();
    let _a1 = register_ms_account(&mut ms);
    let _a2 = register_ms_account(&mut ms);
    let accounts = ms.ms_list_accounts_by_owner(OWNER);
    assert_eq!(accounts.len(), 2);
}

#[test]
fn test_rotate_signer_key() {
    let mut ms = MultiSigRegistry::new();
    let account_id = register_ms_account(&mut ms);
    let replacement: u64 = 9;

    ms.ms_rotate_signer(account_id, SIGNER1, replacement, OWNER).unwrap();
    let account = ms.ms_get_safe_account(account_id).unwrap();
    assert!(account.signers.contains(&replacement));
    assert!(!account.signers.contains(&SIGNER1));
}

#[test]
fn test_treasury_withdrawal_multisig_gate_integration() {
    let mut guilds = GuildRegistry::new();
    let mut ms = MultiSigRegistry::new();
    let mut treasuries = TreasuryRegistry::new();

    let guild_id = guilds
        .create_guild(
            "Treasury Guild".to_string(),
            "Guild for treasury integration".to_string(),
            OWNER,
            0,
        )
        .unwrap();

    let treasury_id = treasuries
        .initialize_treasury(&guilds, guild_id, vec![OWNER, SIGNER1, SIGNER2], 2u32)
        .unwrap();
    treasuries.deposit(treasury_id, OWNER, 1_000i128, None, 0).unwrap();

    // multisig gate setup
    let account_id = register_ms_account(&mut ms);
    let op_id = ms
        .ms_propose_operation(
            account_id,
            OperationType::TreasuryWithdrawal,
            "Approve treasury withdrawal".to_string(),
            OWNER,
            0,
        )
        .unwrap();
    ms.ms_sign_operation(op_id, SIGNER1, 1).unwrap();
    assert!(ms.ms_execute_operation(op_id, SIGNER2, 2).is_ok());

    let tx_id = treasuries
        .ms_propose_treasury_withdrawal(
            &ms,
            op_id,
            treasury_id,
            OWNER,
            SIGNER1,
            100i128,
            None,
            "multisig-approved withdrawal".to_string(),
            3,
        )
        .unwrap();
    // tx id 1 is the deposit; the withdrawal proposal is the next entry
    assert_eq!(tx_id, 2);
}

#[test]
fn test_governance_multisig_gate_integration() {
    let mut guilds = GuildRegistry::new();
    let mut gov = GovernanceRegistry::new();
    let mut ms = MultiSigRegistry::new();

    let guild_id = guilds
        .create_guild(
            "Gov Guild".to_string(),
            "Guild for governance integration".to_string(),
            OWNER,
            0,
        )
        .unwrap();

    let proposal_id = gov
        .create_proposal(
            &guilds,
            guild_id,
            OWNER,
            ProposalType::GeneralDecision,
            "General decision".to_string(),
            "Should we proceed?".to_string(),
            ExecutionPayload::GeneralDecision,
            0,
        )
        .unwrap();
    gov.vote(&guilds, proposal_id, OWNER, VoteDecision::For, 1).unwrap();
    // end the voting period
    let after_voting = 8 * 24 * 60 * 60;

    let account_id = register_ms_account(&mut ms);
    let op_id = ms
        .ms_propose_operation(
            account_id,
            OperationType::GovernanceUpdate,
            "Approve governance execution".to_string(),
            OWNER,
            after_voting,
        )
        .unwrap();
    ms.ms_sign_operation(op_id, SIGNER1, after_voting).unwrap();
    assert!(ms.ms_execute_operation(op_id, SIGNER2, after_voting).is_ok());
    let ok = gov
        .ms_execute_governance_proposal(
            &mut guilds,
            &ms,
            op_id,
            proposal_id,
            OWNER,
            after_voting,
        )
        .unwrap();
    assert!(ok);
    assert_eq!(
        gov.get_proposal(proposal_id).unwrap().status,
        ProposalStatus::Executed
    );
}

#[test]
fn test_register_rejects_unsafe_threshold() {
    let mut ms = MultiSigRegistry::new();
    // effective signers are {2, 3, 1}: a threshold of 1 is below the majority
    assert_eq!(
        ms.ms_register_account(OWNER, vec![SIGNER1, SIGNER2], 1u32),
        Err(Error::InvalidInput)
    );
    // and 4 exceeds the signer count
    assert_eq!(
        ms.ms_register_account(OWNER, vec![SIGNER1, SIGNER2], 4u32),
        Err(Error::InvalidInput)
    );
    // duplicate signers are refused
    assert_eq!(
        ms.ms_register_account(OWNER, vec![SIGNER1, SIGNER1], 2u32),
        Err(Error::InvalidInput)
    );
}

#[test]
fn test_account_ids_monotonic_and_nonce_increases() {
    let mut ms = MultiSigRegistry::new();
    let a1 = register_ms_account(&mut ms);
    let a2 = register_ms_account(&mut ms);
    assert!(a2 > a1);

    assert_eq!(ms.ms_get_safe_account(a1).unwrap().nonce, 0);
    ms.ms_propose_operation(
        a1,
        OperationType::EmergencyAction,
        "first".to_string(),
        OWNER,
        0,
    )
    .unwrap();
    assert_eq!(ms.ms_get_safe_account(a1).unwrap().nonce, 1);
    ms.ms_update_threshold(a1, 3u32, OWNER).unwrap();
    assert_eq!(ms.ms_get_safe_account(a1).unwrap().nonce, 2);
    let op2 = ms
        .ms_propose_operation(
            a1,
            OperationType::EmergencyAction,
            "second".to_string(),
            OWNER,
            0,
        )
        .unwrap();
    assert_eq!(ms.ms_get_safe_account(a1).unwrap().nonce, 3);
    // the operation snapshots the nonce it was proposed under
    assert_eq!(ms.ms_get_operation_status(op2).unwrap().nonce, 2);
}

#[test]
fn test_sign_errors() {
    let mut ms = MultiSigRegistry::new();
    let account_id = register_ms_account(&mut ms);
    let op_id = ms
        .ms_propose_operation(
            account_id,
            OperationType::EmergencyAction,
            "sign errors".to_string(),
            OWNER,
            0,
        )
        .unwrap();
    // an outsider may not sign
    assert_eq!(ms.ms_sign_operation(op_id, 42, 1), Err(Error::InvalidSigner));
    // the proposer already signed
    assert_eq!(ms.ms_sign_operation(op_id, OWNER, 1), Err(Error::DuplicateState));
    // an unknown operation
    assert_eq!(ms.ms_sign_operation(99, SIGNER1, 1), Err(Error::NotFound));
    // under a policy demanding two signatures, one is not enough
    ms.ms_set_operation_policy(
        account_id,
        OperationType::EmergencyAction,
        2u32,
        false,
        0,
        false,
        OWNER,
    )
    .unwrap();
    assert_eq!(
        ms.ms_execute_operation(op_id, OWNER, 1),
        Err(Error::InsufficientSignatures)
    );
}

#[test]
fn test_expiry_is_observed_by_every_touch() {
    let mut ms = MultiSigRegistry::new();
    let account_id = register_ms_account(&mut ms);
    let op_id = ms
        .ms_propose_operation(
            account_id,
            OperationType::EmergencyAction,
            "expire".to_string(),
            OWNER,
            0,
        )
        .unwrap();
    let late = TIMEOUT_48H + 1;
    // the first touch past the expiry persists the Expired status
    assert_eq!(ms.ms_sign_operation(op_id, SIGNER1, late), Err(Error::Timeout));
    assert_eq!(
        ms.ms_get_operation_status(op_id).unwrap().status,
        OperationStatus::Expired
    );
    // later touches observe the terminal status
    assert_eq!(ms.ms_execute_operation(op_id, SIGNER1, late), Err(Error::BadState));
    assert_eq!(ms.ms_check_and_expire(op_id, late), Ok(false));
}

#[test]
fn test_cancel_operation() {
    let mut ms = MultiSigRegistry::new();
    let account_id = register_ms_account(&mut ms);
    let op_id = ms
        .ms_propose_operation(
            account_id,
            OperationType::EmergencyAction,
            "cancel".to_string(),
            SIGNER1,
            0,
        )
        .unwrap();
    // only the proposer or the owner may cancel
    assert_eq!(ms.ms_cancel_operation(op_id, SIGNER2), Err(Error::Unauthorized));
    ms.ms_cancel_operation(op_id, OWNER).unwrap();
    assert_eq!(
        ms.ms_get_operation_status(op_id).unwrap().status,
        OperationStatus::Cancelled
    );
    // terminal states are frozen
    assert_eq!(ms.ms_cancel_operation(op_id, OWNER), Err(Error::BadState));
}

#[test]
fn test_policy_timeout_clamped() {
    let mut ms = MultiSigRegistry::new();
    let account_id = register_ms_account(&mut ms);
    // 0 selects the default 48h
    ms.ms_set_operation_policy(
        account_id,
        OperationType::EmergencyAction,
        2u32,
        false,
        0,
        false,
        OWNER,
    )
    .unwrap();
    let p = ms.ms_get_operation_policy(account_id, OperationType::EmergencyAction);
    assert_eq!(p.timeout_seconds, TIMEOUT_48H);
    // a short timeout is clamped up to 24h
    ms.ms_set_operation_policy(
        account_id,
        OperationType::EmergencyAction,
        2u32,
        false,
        1_000,
        false,
        OWNER,
    )
    .unwrap();
    let p = ms.ms_get_operation_policy(account_id, OperationType::EmergencyAction);
    assert_eq!(p.timeout_seconds, TIMEOUT_24H);
    // resetting restores the default policy
    ms.ms_reset_operation_policy(account_id, OperationType::EmergencyAction, OWNER)
        .unwrap();
    let p = ms.ms_get_operation_policy(account_id, OperationType::EmergencyAction);
    assert_eq!(p.min_signatures, 1);
    assert_eq!(p.require_all_signers, false);
    assert_eq!(p.timeout_seconds, TIMEOUT_48H);
    assert_eq!(p.require_owner_signature, false);
}

#[test]
fn test_emergency_timeout_controls() {
    let mut ms = MultiSigRegistry::new();
    let account_id = register_ms_account(&mut ms);
    let op_id = ms
        .ms_propose_operation(
            account_id,
            OperationType::EmergencyAction,
            "extend".to_string(),
            OWNER,
            0,
        )
        .unwrap();
    // extending rebases the expiry from now, clamped into 24h..48h
    ms.ms_emergency_extend_timeout(op_id, 1_000_000, OWNER, 100).unwrap();
    assert_eq!(
        ms.ms_get_operation_status(op_id).unwrap().expires_at,
        100 + TIMEOUT_48H
    );
    // the owner may force-expire a pending operation
    ms.ms_emergency_expire_operation(op_id, OWNER).unwrap();
    assert_eq!(
        ms.ms_get_operation_status(op_id).unwrap().status,
        OperationStatus::Expired
    );
}

#[test]
fn test_frozen_account_blocks_proposals() {
    let mut ms = MultiSigRegistry::new();
    let account_id = register_ms_account(&mut ms);
    ms.ms_freeze_account(account_id, OWNER).unwrap();
    assert_eq!(
        ms.ms_propose_operation(
            account_id,
            OperationType::EmergencyAction,
            "frozen".to_string(),
            OWNER,
            0,
        ),
        Err(Error::Unauthorized)
    );
    ms.ms_unfreeze_account(account_id, OWNER).unwrap();
    assert!(ms
        .ms_propose_operation(
            account_id,
            OperationType::EmergencyAction,
            "thawed".to_string(),
            OWNER,
            0,
        )
        .is_ok());
}

#[test]
fn test_remove_signer_updates_threshold() {
    let mut ms = MultiSigRegistry::new();
    let account_id = register_ms_account(&mut ms);
    // the owner cannot be removed
    assert_eq!(
        ms.ms_remove_signer(account_id, OWNER, OWNER, 2u32),
        Err(Error::Unauthorized)
    );
    ms.ms_remove_signer(account_id, SIGNER2, OWNER, 2u32).unwrap();
    let account = ms.ms_get_safe_account(account_id).unwrap();
    assert_eq!(account.signers.len(), 2);
    assert!(!account.signers.contains(&SIGNER2));
    assert_eq!(account.threshold, 2);
    assert_eq!(account.nonce, 1);
}

#[test]
fn test_require_executed_operation_gate() {
    let mut ms = MultiSigRegistry::new();
    let mut guilds = GuildRegistry::new();
    let mut gov = GovernanceRegistry::new();
    let guild_id = guilds
        .create_guild("Gate Guild".to_string(), "Gate".to_string(), OWNER, 0)
        .unwrap();
    let pid = gov
        .create_proposal(
            &guilds,
            guild_id,
            OWNER,
            ProposalType::GeneralDecision,
            "Gated".to_string(),
            "Needs gate".to_string(),
            ExecutionPayload::GeneralDecision,
            0,
        )
        .unwrap();
    let account_id = register_ms_account(&mut ms);
    let op_id = ms
        .ms_propose_operation(
            account_id,
            OperationType::TreasuryWithdrawal,
            "wrong type".to_string(),
            OWNER,
            0,
        )
        .unwrap();
    ms.ms_sign_operation(op_id, SIGNER1, 1).unwrap();
    ms.ms_execute_operation(op_id, SIGNER2, 2).unwrap();
    // an executed operation of the wrong type is refused
    assert_eq!(
        gov.ms_execute_governance_proposal(&mut guilds, &ms, op_id, pid, OWNER, 3),
        Err(Error::TypeMismatch)
    );
    // a pending operation does not open it either
    let op2 = ms
        .ms_propose_operation(
            account_id,
            OperationType::GovernanceUpdate,
            "pending".to_string(),
            OWNER,
            3,
        )
        .unwrap();
    assert_eq!(
        gov.ms_execute_governance_proposal(&mut guilds, &ms, op2, pid, OWNER, 4),
        Err(Error::BadState)
    );
}

#[test]
fn test_check_and_expire_transitions_once() {
    let mut ms = MultiSigRegistry::new();
    let account_id = register_ms_account(&mut ms);
    let op_id = ms
        .ms_propose_operation(
            account_id,
            OperationType::GuildConfigChange,
            "lazy expiry".to_string(),
            OWNER,
            0,
        )
        .unwrap();
    // before the deadline nothing happens
    assert_eq!(ms.ms_check_and_expire(op_id, TIMEOUT_48H), Ok(false));
    // the first touch after the deadline persists the transition
    assert_eq!(ms.ms_check_and_expire(op_id, TIMEOUT_48H + 1), Ok(true));
    assert_eq!(
        ms.ms_get_operation_status(op_id).unwrap().status,
        OperationStatus::Expired
    );
    // and it happens only once
    assert_eq!(ms.ms_check_and_expire(op_id, TIMEOUT_48H + 2), Ok(false));
}
