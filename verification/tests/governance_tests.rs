use guild_engine::governance::{
    ExecutionPayload, GovernanceRegistry, ProposalStatus, ProposalType,
};
use guild_engine::guilds::{GovernanceConfig, GuildRegistry};
use guild_engine::roles::Role;
use guild_engine::tally::VoteDecision;
use guild_engine::Error;

const OWNER: u64 = 1;
const ADMIN: u64 = 2;
const MEMBER: u64 = 3;
const CONTRIBUTOR: u64 = 4;

fn setup_guild_with_members(guilds: &mut GuildRegistry) -> u64 {
    let guild_id = guilds
        .create_guild(
            "Gov Guild".to_string(),
            "Governance test guild".to_string(),
            OWNER,
            0,
        )
        .unwrap();
    guilds.add_member(guild_id, ADMIN, Role::Admin, OWNER, 0).unwrap();
    guilds.add_member(guild_id, MEMBER, Role::Member, OWNER, 0).unwrap();
    guilds
        .add_member(guild_id, CONTRIBUTOR, Role::Contributor, OWNER, 0)
        .unwrap();
    guild_id
}

#[test]
fn test_create_proposal_and_vote_weights() {
    let mut guilds = GuildRegistry::new();
    let mut gov = GovernanceRegistry::new();
    let guild_id = setup_guild_with_members(&mut guilds);

    let proposal_id = gov
        .create_proposal(
            &guilds,
            guild_id,
            OWNER,
            ProposalType::GeneralDecision,
            "Test Proposal".to_string(),
            "Description".to_string(),
            ExecutionPayload::GeneralDecision,
            0,
        )
        .unwrap();

    gov.vote(&guilds, proposal_id, OWNER, VoteDecision::For, 1).unwrap();
    gov.vote(&guilds, proposal_id, ADMIN, VoteDecision::For, 1).unwrap();
    gov.vote(&guilds, proposal_id, MEMBER, VoteDecision::Against, 1).unwrap();
    gov.vote(&guilds, proposal_id, CONTRIBUTOR, VoteDecision::Abstain, 1)
        .unwrap();

    let end = gov.get_proposal(proposal_id).unwrap().voting_end;
    let status = gov.finalize_proposal(&guilds, proposal_id, end + 1).unwrap();
    assert_eq!(status, ProposalStatus::Passed);

    let proposal = gov.get_proposal(proposal_id).unwrap();
    // weights: Owner 10 + Admin 5 for FOR; Member 2 against; Contributor 1 abstain
    assert_eq!(proposal.votes_for, 15);
    assert_eq!(proposal.votes_against, 2);
    assert_eq!(proposal.votes_abstain, 1);
}

#[test]
fn test_vote_delegation_chain() {
    let mut guilds = GuildRegistry::new();
    let mut gov = GovernanceRegistry::new();
    let guild_id = setup_guild_with_members(&mut guilds);

    let proposal_id = gov
        .create_proposal(
            &guilds,
            guild_id,
            OWNER,
            ProposalType::GeneralDecision,
            "Delegation Proposal".to_string(),
            "Delegation".to_string(),
            ExecutionPayload::GeneralDecision,
            0,
        )
        .unwrap();

    // chain: contributor -> member -> admin
    guilds.delegate_vote(guild_id, MEMBER, ADMIN).unwrap();
    guilds.delegate_vote(guild_id, CONTRIBUTOR, MEMBER).unwrap();

    // only admin votes FOR
    gov.vote(&guilds, proposal_id, ADMIN, VoteDecision::For, 1).unwrap();

    let end = gov.get_proposal(proposal_id).unwrap().voting_end;
    let status = gov.finalize_proposal(&guilds, proposal_id, end + 1).unwrap();
    assert_eq!(status, ProposalStatus::Passed);

    // admin's own 5 plus delegated member 2 plus transitively delegated contributor 1
    let proposal = gov.get_proposal(proposal_id).unwrap();
    assert_eq!(proposal.votes_for, 8);
}

#[test]
fn test_add_member_proposal_execution() {
    let mut guilds = GuildRegistry::new();
    let mut gov = GovernanceRegistry::new();
    let guild_id = setup_guild_with_members(&mut guilds);

    let new_addr: u64 = 9;
    let proposal_id = gov
        .create_proposal(
            &guilds,
            guild_id,
            OWNER,
            ProposalType::AddMember,
            "Add Member".to_string(),
            "Add new member".to_string(),
            ExecutionPayload::AddMember { address: new_addr, role: Role::Member },
            0,
        )
        .unwrap();

    gov.vote(&guilds, proposal_id, OWNER, VoteDecision::For, 1).unwrap();
    gov.vote(&guilds, proposal_id, ADMIN, VoteDecision::For, 1).unwrap();

    let end = gov.get_proposal(proposal_id).unwrap().voting_end;
    let status = gov.finalize_proposal(&guilds, proposal_id, end + 1).unwrap();
    assert_eq!(status, ProposalStatus::Passed);

    let exec_ok = gov
        .execute_proposal(&mut guilds, proposal_id, OWNER, end + 2)
        .unwrap();
    assert!(exec_ok);

    let added = guilds.get_member(guild_id, new_addr).unwrap();
    assert_eq!(added.role, Role::Member);

    let proposal = gov.get_proposal(proposal_id).unwrap();
    assert_eq!(proposal.status, ProposalStatus::Executed);
}

#[test]
fn test_quorum_rejection() {
    let mut guilds = GuildRegistry::new();
    let mut gov = GovernanceRegistry::new();
    let guild_id = setup_guild_with_members(&mut guilds);

    let proposal_id = gov
        .create_proposal(
            &guilds,
            guild_id,
            OWNER,
            ProposalType::GeneralDecision,
            "Low Quorum".to_string(),
            "Low quorum".to_string(),
            ExecutionPayload::GeneralDecision,
            0,
        )
        .unwrap();

    // only the contributor (weight 1 of total 18) votes, below the 30% quorum
    gov.vote(&guilds, proposal_id, CONTRIBUTOR, VoteDecision::For, 1).unwrap();

    let end = gov.get_proposal(proposal_id).unwrap().voting_end;
    let status = gov.finalize_proposal(&guilds, proposal_id, end + 1).unwrap();
    assert_eq!(status, ProposalStatus::Rejected);
}

#[test]
fn test_config_update_only_owner() {
    let mut guilds = GuildRegistry::new();
    let guild_id = setup_guild_with_members(&mut guilds);

    let mut cfg = GovernanceConfig::default();
    cfg.quorum_percentage = 40;

    let res = guilds.update_governance_config(guild_id, OWNER, cfg).unwrap();
    assert!(res);

    let result = guilds.update_governance_config(guild_id, ADMIN, cfg);
    assert!(result.is_err());
}

#[test]
fn test_quorum_failure_execute_bad_state() {
    let mut guilds = GuildRegistry::new();
    let mut gov = GovernanceRegistry::new();
    let guild_id = setup_guild_with_members(&mut guilds);

    let proposal_id = gov
        .create_proposal(
            &guilds,
            guild_id,
            OWNER,
            ProposalType::GeneralDecision,
            "Low Quorum".to_string(),
            "Low quorum".to_string(),
            ExecutionPayload::GeneralDecision,
            0,
        )
        .unwrap();
    gov.vote(&guilds, proposal_id, CONTRIBUTOR, VoteDecision::For, 1).unwrap();
    let end = gov.get_proposal(proposal_id).unwrap().voting_end;
    // (1 * 100) / 18 < 30, so the proposal is rejected and cannot execute
    let res = gov.execute_proposal(&mut guilds, proposal_id, OWNER, end + 1);
    assert_eq!(res, Err(Error::BadState));
    assert_eq!(
        gov.get_proposal(proposal_id).unwrap().status,
        ProposalStatus::Rejected
    );
}

#[test]
fn test_weighted_tally_execute() {
    let mut guilds = GuildRegistry::new();
    let mut gov = GovernanceRegistry::new();
    let guild_id = setup_guild_with_members(&mut guilds);

    let proposal_id = gov
        .create_proposal(
            &guilds,
            guild_id,
            OWNER,
            ProposalType::GeneralDecision,
            "Decision".to_string(),
            "Weighted".to_string(),
            ExecutionPayload::GeneralDecision,
            0,
        )
        .unwrap();
    gov.vote(&guilds, proposal_id, OWNER, VoteDecision::For, 1).unwrap();
    gov.vote(&guilds, proposal_id, ADMIN, VoteDecision::For, 1).unwrap();
    gov.vote(&guilds, proposal_id, MEMBER, VoteDecision::Against, 1).unwrap();
    gov.vote(&guilds, proposal_id, CONTRIBUTOR, VoteDecision::Abstain, 1)
        .unwrap();
    let end = gov.get_proposal(proposal_id).unwrap().voting_end;
    // execute auto-finalizes once voting has ended
    let ok = gov
        .execute_proposal(&mut guilds, proposal_id, OWNER, end + 1)
        .unwrap();
    assert!(ok);
    let p = gov.get_proposal(proposal_id).unwrap();
    assert_eq!(p.status, ProposalStatus::Executed);
    assert_eq!(p.votes_for, 15);
    assert_eq!(p.votes_against, 2);
    assert_eq!(p.votes_abstain, 1);
}

#[test]
fn test_double_vote_rejected() {
    let mut guilds = GuildRegistry::new();
    let mut gov = GovernanceRegistry::new();
    let guild_id = setup_guild_with_members(&mut guilds);
    let pid = gov
        .create_proposal(
            &guilds,
            guild_id,
            OWNER,
            ProposalType::GeneralDecision,
            "Once".to_string(),
            "No double vote".to_string(),
            ExecutionPayload::GeneralDecision,
            0,
        )
        .unwrap();
    gov.vote(&guilds, pid, OWNER, VoteDecision::For, 1).unwrap();
    let res = gov.vote(&guilds, pid, OWNER, VoteDecision::Against, 2);
    assert_eq!(res, Err(Error::DuplicateState));
    let p = gov.get_proposal(pid).unwrap();
    assert_eq!(p.votes_for, 10);
    assert_eq!(p.votes_against, 0);
}

#[test]
fn test_delegator_cannot_vote_directly() {
    let mut guilds = GuildRegistry::new();
    let mut gov = GovernanceRegistry::new();
    let guild_id = setup_guild_with_members(&mut guilds);
    guilds.delegate_vote(guild_id, MEMBER, ADMIN).unwrap();
    let pid = gov
        .create_proposal(
            &guilds,
            guild_id,
            OWNER,
            ProposalType::GeneralDecision,
            "Delegated".to_string(),
            "No direct vote".to_string(),
            ExecutionPayload::GeneralDecision,
            0,
        )
        .unwrap();
    let res = gov.vote(&guilds, pid, MEMBER, VoteDecision::For, 1);
    assert_eq!(res, Err(Error::BadState));
    // after undelegating, the member may vote directly again
    guilds.undelegate_vote(guild_id, MEMBER).unwrap();
    gov.vote(&guilds, pid, MEMBER, VoteDecision::For, 2).unwrap();
}

#[test]
fn test_delegation_cycle_contributions_dropped() {
    let mut guilds = GuildRegistry::new();
    let mut gov = GovernanceRegistry::new();
    let guild_id = setup_guild_with_members(&mut guilds);
    // member and contributor delegate to each other: a cycle
    guilds.delegate_vote(guild_id, MEMBER, CONTRIBUTOR).unwrap();
    guilds.delegate_vote(guild_id, CONTRIBUTOR, MEMBER).unwrap();
    let pid = gov
        .create_proposal(
            &guilds,
            guild_id,
            OWNER,
            ProposalType::GeneralDecision,
            "Cycle".to_string(),
            "Dropped".to_string(),
            ExecutionPayload::GeneralDecision,
            0,
        )
        .unwrap();
    gov.vote(&guilds, pid, OWNER, VoteDecision::For, 1).unwrap();
    let end = gov.get_proposal(pid).unwrap().voting_end;
    gov.finalize_proposal(&guilds, pid, end + 1).unwrap();
    // the cycle contributes nothing; only the owner's direct 10 counts
    let p = gov.get_proposal(pid).unwrap();
    assert_eq!(p.votes_for, 10);
}

#[test]
fn test_finalize_while_voting_open() {
    let mut guilds = GuildRegistry::new();
    let mut gov = GovernanceRegistry::new();
    let guild_id = setup_guild_with_members(&mut guilds);
    let pid = gov
        .create_proposal(
            &guilds,
            guild_id,
            OWNER,
            ProposalType::GeneralDecision,
            "Early".to_string(),
            "Too soon".to_string(),
            ExecutionPayload::GeneralDecision,
            0,
        )
        .unwrap();
    let res = gov.finalize_proposal(&guilds, pid, 10);
    assert_eq!(res, Err(Error::VotingOpen));
}

#[test]
fn test_finalize_terminal_is_idempotent() {
    let mut guilds = GuildRegistry::new();
    let mut gov = GovernanceRegistry::new();
    let guild_id = setup_guild_with_members(&mut guilds);
    let pid = gov
        .create_proposal(
            &guilds,
            guild_id,
            OWNER,
            ProposalType::GeneralDecision,
            "Twice".to_string(),
            "Idempotent".to_string(),
            ExecutionPayload::GeneralDecision,
            0,
        )
        .unwrap();
    gov.vote(&guilds, pid, OWNER, VoteDecision::For, 1).unwrap();
    let end = gov.get_proposal(pid).unwrap().voting_end;
    let s1 = gov.finalize_proposal(&guilds, pid, end + 1).unwrap();
    let s2 = gov.finalize_proposal(&guilds, pid, end + 500).unwrap();
    assert_eq!(s1, ProposalStatus::Passed);
    assert_eq!(s2, ProposalStatus::Passed);
    // tallies are not double counted by the second call
    assert_eq!(gov.get_proposal(pid).unwrap().votes_for, 10);
}

#[test]
fn test_execution_window_expires() {
    let mut guilds = GuildRegistry::new();
    let mut gov = GovernanceRegistry::new();
    let guild_id = setup_guild_with_members(&mut guilds);
    let pid = gov
        .create_proposal(
            &guilds,
            guild_id,
            OWNER,
            ProposalType::GeneralDecision,
            "Window".to_string(),
            "3 days".to_string(),
            ExecutionPayload::GeneralDecision,
            0,
        )
        .unwrap();
    gov.vote(&guilds, pid, OWNER, VoteDecision::For, 1).unwrap();
    let end = gov.get_proposal(pid).unwrap().voting_end;
    gov.finalize_proposal(&guilds, pid, end + 1).unwrap();
    // passed_at is end + 1; three days later the window has closed
    let too_late = end + 1 + 3 * 86_400 + 1;
    let res = gov.execute_proposal(&mut guilds, pid, OWNER, too_late);
    assert_eq!(res, Err(Error::Timeout));
    assert_eq!(gov.get_proposal(pid).unwrap().status, ProposalStatus::Expired);
}

#[test]
fn test_approval_threshold_boundary() {
    let mut guilds = GuildRegistry::new();
    let mut gov = GovernanceRegistry::new();
    let owner2: u64 = 7;
    let guild_id = guilds
        .create_guild("Tie Guild".to_string(), "Even split".to_string(), OWNER, 0)
        .unwrap();
    guilds.add_member(guild_id, owner2, Role::Owner, OWNER, 0).unwrap();
    let pid = gov
        .create_proposal(
            &guilds,
            guild_id,
            OWNER,
            ProposalType::GeneralDecision,
            "Tie".to_string(),
            "50-50".to_string(),
            ExecutionPayload::GeneralDecision,
            0,
        )
        .unwrap();
    gov.vote(&guilds, pid, OWNER, VoteDecision::For, 1).unwrap();
    gov.vote(&guilds, pid, owner2, VoteDecision::Against, 1).unwrap();
    let end = gov.get_proposal(pid).unwrap().voting_end;
    // 10*100 > 50*(10+10) is false: exactly at the threshold is not enough
    let status = gov.finalize_proposal(&guilds, pid, end + 1).unwrap();
    assert_eq!(status, ProposalStatus::Rejected);
}

#[test]
fn test_cancel_proposal_by_proposer() {
    let mut guilds = GuildRegistry::new();
    let mut gov = GovernanceRegistry::new();
    let guild_id = setup_guild_with_members(&mut guilds);
    let pid = gov
        .create_proposal(
            &guilds,
            guild_id,
            MEMBER,
            ProposalType::GeneralDecision,
            "Cancel me".to_string(),
            "Cancelled".to_string(),
            ExecutionPayload::GeneralDecision,
            0,
        )
        .unwrap();
    gov.cancel_proposal(&guilds, pid, MEMBER).unwrap();
    assert_eq!(gov.get_proposal(pid).unwrap().status, ProposalStatus::Cancelled);
    // a cancelled proposal cannot be voted on
    let res = gov.vote(&guilds, pid, OWNER, VoteDecision::For, 1);
    assert_eq!(res, Err(Error::BadState));
}

#[test]
fn test_payload_tag_must_match_type() {
    let mut guilds = GuildRegistry::new();
    let mut gov = GovernanceRegistry::new();
    let guild_id = setup_guild_with_members(&mut guilds);
    let res = gov.create_proposal(
        &guilds,
        guild_id,
        OWNER,
        ProposalType::AddMember,
        "Mismatch".to_string(),
        "Wrong payload".to_string(),
        ExecutionPayload::GeneralDecision,
        0,
    );
    assert_eq!(res, Err(Error::InvalidInput));
}

#[test]
fn test_rule_change_needs_admin() {
    let mut guilds = GuildRegistry::new();
    let mut gov = GovernanceRegistry::new();
    let guild_id = setup_guild_with_members(&mut guilds);
    let res = gov.create_proposal(
        &guilds,
        guild_id,
        MEMBER,
        ProposalType::RuleChange,
        "Rules".to_string(),
        "Needs admin".to_string(),
        ExecutionPayload::RuleChange,
        0,
    );
    assert_eq!(res, Err(Error::Unauthorized));
}

#[test]
fn test_get_active_proposals_tracks_status() {
    let mut guilds = GuildRegistry::new();
    let mut gov = GovernanceRegistry::new();
    let guild_id = setup_guild_with_members(&mut guilds);
    let p1 = gov
        .create_proposal(
            &guilds,
            guild_id,
            OWNER,
            ProposalType::GeneralDecision,
            "One".to_string(),
            "First".to_string(),
            ExecutionPayload::GeneralDecision,
            0,
        )
        .unwrap();
    let p2 = gov
        .create_proposal(
            &guilds,
            guild_id,
            OWNER,
            ProposalType::GeneralDecision,
            "Two".to_string(),
            "Second".to_string(),
            ExecutionPayload::GeneralDecision,
            0,
        )
        .unwrap();
    assert_eq!(gov.get_active_proposals(guild_id), vec![p1, p2]);
    gov.cancel_proposal(&guilds, p1, OWNER).unwrap();
    assert_eq!(gov.get_active_proposals(guild_id), vec![p2]);
    // proposal ids are monotonic
    assert!(p2 > p1);
}
