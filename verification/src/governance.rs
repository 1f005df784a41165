//! Governance engine: proposal lifecycle, weighted voting with delegation,
//! quorum-based finalization, and execution inside a bounded window.

use vstd::prelude::*;

use crate::guilds::{Delegation, Guild, GuildRegistry, GovernanceConfig, Member};
use crate::roles::{Role, spec_weight};
use crate::tally::{
    VoteDecision, VoteRecord, votes_distinct, weights_bounded, has_voted, lemma_vote_idx,
    sum_weight_for, lemma_sum_weight_bound, sum_weight_all,
    lemma_sum_weight_split, delegated_sum, delegated_sum_any, lemma_delegated_sum_bound,
    lemma_delegated_sum_split, total_weight, lemma_total_weight_bound, compute_delegated_sums,
    compute_total_weight, find_vote,
};
use crate::multisig::{MultiSigRegistry, OperationType};
use crate::{Error, Principal, EXECUTION_DEADLINE_SECONDS};

verus! {

#[derive(Clone, Copy, Debug, PartialEq, Eq, Structural)]
pub enum ProposalType {
    GeneralDecision,
    TreasurySpend,
    RuleChange,
    AddMember,
    RemoveMember,
}

#[derive(Clone, Copy, Debug, PartialEq, Eq, Structural)]
pub enum ProposalStatus {
    Active,
    Passed,
    Rejected,
    Cancelled,
    Executed,
    Expired,
}

/// Payload applied when a proposal executes; its tag must match the
/// proposal type.
#[derive(Clone, Copy, Debug, PartialEq, Eq, Structural)]
pub enum ExecutionPayload {
    GeneralDecision,
    TreasurySpend,
    RuleChange,
    AddMember { address: Principal, role: Role },
    RemoveMember { address: Principal },
}

/// The payload tag agrees with the proposal type.
pub open spec fn payload_matches(t: ProposalType, p: ExecutionPayload) -> bool {
    match (t, p) {
        (ProposalType::GeneralDecision, ExecutionPayload::GeneralDecision) => true,
        (ProposalType::TreasurySpend, ExecutionPayload::TreasurySpend) => true,
        (ProposalType::RuleChange, ExecutionPayload::RuleChange) => true,
        (ProposalType::AddMember, ExecutionPayload::AddMember { .. }) => true,
        (ProposalType::RemoveMember, ExecutionPayload::RemoveMember { .. }) => true,
        _ => false,
    }
}

/// Check the payload tag against the proposal type.
pub fn check_payload_matches(t: ProposalType, p: ExecutionPayload) -> (b: bool)
    ensures
        b == payload_matches(t, p),
{
    match (t, p) {
        (ProposalType::GeneralDecision, ExecutionPayload::GeneralDecision) => true,
        (ProposalType::TreasurySpend, ExecutionPayload::TreasurySpend) => true,
        (ProposalType::RuleChange, ExecutionPayload::RuleChange) => true,
        (ProposalType::AddMember, ExecutionPayload::AddMember { .. }) => true,
        (ProposalType::RemoveMember, ExecutionPayload::RemoveMember { .. }) => true,
        _ => false,
    }
}

/// A weighted-vote proposal in one guild.
pub struct Proposal {
    pub id: u64,
    pub guild_id: u64,
    pub proposer: Principal,
    pub proposal_type: ProposalType,
    pub title: String,
    pub description: String,
    pub payload: ExecutionPayload,
    pub created_at: u64,
    pub voting_end: u64,
    pub status: ProposalStatus,
    pub passed_at: Option<u64>,
    pub executed_at: Option<u64>,
    pub votes_for: u128,
    pub votes_against: u128,
    pub votes_abstain: u128,
    pub votes: Vec<VoteRecord>,
}

impl Proposal {
    /// Voters are distinct, weights are role weights, the payload tag
    /// matches, and while the proposal is Active the tallies are exactly
    /// the sums of the direct vote weights.
    pub open spec fn wf(self) -> bool {
        &&& votes_distinct(self.votes@)
        &&& weights_bounded(self.votes@)
        &&& payload_matches(self.proposal_type, self.payload)
        &&& self.status == ProposalStatus::Active ==> {
            &&& self.votes_for == sum_weight_for(self.votes@, VoteDecision::For)
            &&& self.votes_against == sum_weight_for(self.votes@, VoteDecision::Against)
            &&& self.votes_abstain == sum_weight_for(self.votes@, VoteDecision::Abstain)
            &&& self.passed_at is None
            &&& self.executed_at is None
        }
        &&& self.status == ProposalStatus::Passed ==> self.passed_at is Some
    }

    /// The tally field that belongs to a decision.
    pub open spec fn tally_of(self, d: VoteDecision) -> int {
        match d {
            VoteDecision::For => self.votes_for as int,
            VoteDecision::Against => self.votes_against as int,
            VoteDecision::Abstain => self.votes_abstain as int,
        }
    }
}

/// Two proposals agree on everything but status, stamps, tallies, and the
/// vote list.
pub open spec fn same_proposal_core(a: Proposal, b: Proposal) -> bool {
    &&& a.id == b.id
    &&& a.guild_id == b.guild_id
    &&& a.proposer == b.proposer
    &&& a.proposal_type == b.proposal_type
    &&& a.title == b.title
    &&& a.description == b.description
    &&& a.payload == b.payload
    &&& a.created_at == b.created_at
    &&& a.voting_end == b.voting_end
}

/// All proposals, with dense monotonically assigned ids.
pub struct GovernanceRegistry {
    pub proposals: Vec<Proposal>,
}

impl GovernanceRegistry {
    pub open spec fn wf(self) -> bool {
        forall|i: int|
            0 <= i < self.proposals@.len() ==> (#[trigger] self.proposals@[i]).wf()
                && self.proposals@[i].id == i + 1 && self.proposals@[i].guild_id >= 1
    }

    pub open spec fn has_proposal(self, id: u64) -> bool {
        1 <= id <= self.proposals@.len()
    }

    pub open spec fn proposal_at(self, id: u64) -> Proposal {
        self.proposals@[id - 1]
    }

    /// Proposals agree with `other` except possibly the one with `id`.
    pub open spec fn same_but_proposal(self, other: GovernanceRegistry, id: u64) -> bool {
        &&& self.proposals@.len() == other.proposals@.len()
        &&& forall|i: int|
            0 <= i < self.proposals@.len() && i != id - 1 ==> self.proposals@[i]
                == other.proposals@[i]
    }

    /// Fresh registry with no proposals.
    pub fn new() -> (r: GovernanceRegistry)
        ensures
            r.wf(),
            r.proposals@.len() == 0,
    {
        GovernanceRegistry { proposals: Vec::new() }
    }

    /// Look up a proposal by id.
    pub fn get_proposal(&self, id: u64) -> (r: Result<&Proposal, Error>)
        requires
            self.wf(),
        ensures
            match r {
                Ok(p) => self.has_proposal(id) && *p == self.proposal_at(id),
                Err(e) => e == Error::NotFound && !self.has_proposal(id),
            },
    {
        if id >= 1 && id <= self.proposals.len() as u64 {
            Ok(&self.proposals[(id - 1) as usize])
        } else {
            Err(Error::NotFound)
        }
    }

    /// After changing one proposal in a way that keeps it well-formed with
    /// the same id and guild, the registry stays well-formed.
    proof fn lemma_props_wf_after_change(self, prev: GovernanceRegistry, idx: int)
        requires
            prev.wf(),
            self.proposals@.len() == prev.proposals@.len(),
            forall|i: int|
                0 <= i < self.proposals@.len() && i != idx ==> self.proposals@[i]
                    == prev.proposals@[i],
            0 <= idx < self.proposals@.len(),
            self.proposals@[idx].wf(),
            self.proposals@[idx].id == prev.proposals@[idx].id,
            self.proposals@[idx].guild_id == prev.proposals@[idx].guild_id,
        ensures
            self.wf(),
    {
        assert forall|i: int| 0 <= i < self.proposals@.len() implies (
        #[trigger] self.proposals@[i]).wf() && self.proposals@[i].id == i + 1
            && self.proposals@[i].guild_id >= 1 by {
            if i != idx {
                assert(self.proposals@[i] == prev.proposals@[i]);
                assert(prev.proposals@[i].wf());
            } else {
                assert(prev.proposals@[idx].wf());
            }
        };
    }

    /// Proposer may open a proposal of type `t`: membership at Member or
    /// above, and Admin or above for rule changes and treasury spending.
    pub open spec fn can_propose(g: Guild, proposer: Principal, t: ProposalType) -> bool {
        &&& g.spec_has_permission(proposer, Role::Member)
        &&& ((t == ProposalType::RuleChange || t == ProposalType::TreasurySpend)
            ==> g.spec_has_permission(proposer, Role::Admin))
    }

    /// Open a proposal. The payload tag must match the type; voting runs
    /// for the guild's configured period; ids are dense and monotonic.
    pub fn create_proposal(
        &mut self,
        guilds: &GuildRegistry,
        guild_id: u64,
        proposer: Principal,
        proposal_type: ProposalType,
        title: String,
        description: String,
        payload: ExecutionPayload,
        now: u64,
    ) -> (r: Result<u64, Error>)
        requires
            old(self).wf(),
            guilds.wf(),
            old(self).proposals@.len() < usize::MAX,
        ensures
            final(self).wf(),
            match r {
                Ok(id) => {
                    &&& guilds.has_guild(guild_id)
                    &&& GovernanceRegistry::can_propose(
                        guilds.guild_at(guild_id),
                        proposer,
                        proposal_type,
                    )
                    &&& payload_matches(proposal_type, payload)
                    &&& now + guilds.guild_at(guild_id).config.voting_period_seconds <= u64::MAX
                    &&& id == old(self).proposals@.len() + 1
                    &&& final(self).proposals@.len() == old(self).proposals@.len() + 1
                    &&& forall|i: int|
                        0 <= i < old(self).proposals@.len() ==> final(self).proposals@[i] == old(
                            self,
                        ).proposals@[i]
                    &&& final(self).proposals@.last().id == id
                    &&& final(self).proposals@.last().guild_id == guild_id
                    &&& final(self).proposals@.last().proposer == proposer
                    &&& final(self).proposals@.last().proposal_type == proposal_type
                    &&& final(self).proposals@.last().title == title
                    &&& final(self).proposals@.last().description == description
                    &&& final(self).proposals@.last().payload == payload
                    &&& final(self).proposals@.last().created_at == now
                    &&& final(self).proposals@.last().voting_end == now + guilds.guild_at(
                        guild_id,
                    ).config.voting_period_seconds
                    &&& final(self).proposals@.last().status == ProposalStatus::Active
                    &&& final(self).proposals@.last().votes@.len() == 0
                    &&& final(self).proposals@.last().votes_for == 0
                    &&& final(self).proposals@.last().votes_against == 0
                    &&& final(self).proposals@.last().votes_abstain == 0
                    &&& final(self).proposals@.last().passed_at is None
                    &&& final(self).proposals@.last().executed_at is None
                },
                Err(e) => {
                    &&& *final(self) == *old(self)
                    &&& match e {
                        Error::NotFound => !guilds.has_guild(guild_id),
                        Error::Unauthorized => guilds.has_guild(guild_id)
                            && !GovernanceRegistry::can_propose(
                            guilds.guild_at(guild_id),
                            proposer,
                            proposal_type,
                        ),
                        Error::InvalidInput => guilds.has_guild(guild_id)
                            && GovernanceRegistry::can_propose(
                            guilds.guild_at(guild_id),
                            proposer,
                            proposal_type,
                        ) && (!payload_matches(proposal_type, payload) || now + guilds.guild_at(
                            guild_id,
                        ).config.voting_period_seconds > u64::MAX),
                        _ => false,
                    }
                },
            },
    {
        let g = match guilds.guild_ref(guild_id) {
            Ok(g) => g,
            Err(e) => {
                return Err(e);
            },
        };
        let mut authorized = guilds.has_permission(guild_id, proposer, Role::Member);
        if matches!(proposal_type, ProposalType::RuleChange) || matches!(
            proposal_type,
            ProposalType::TreasurySpend,
        ) {
            authorized = authorized && guilds.has_permission(guild_id, proposer, Role::Admin);
        }
        if !authorized {
            return Err(Error::Unauthorized);
        }
        if !check_payload_matches(proposal_type, payload) {
            return Err(Error::InvalidInput);
        }
        let voting_end = match now.checked_add(g.config.voting_period_seconds) {
            Some(t) => t,
            None => {
                return Err(Error::InvalidInput);
            },
        };
        let id = (self.proposals.len() + 1) as u64;
        let proposal = Proposal {
            id,
            guild_id,
            proposer,
            proposal_type,
            title,
            description,
            payload,
            created_at: now,
            voting_end,
            status: ProposalStatus::Active,
            passed_at: None,
            executed_at: None,
            votes_for: 0,
            votes_against: 0,
            votes_abstain: 0,
            votes: Vec::new(),
        };
        self.proposals.push(proposal);
        proof {
            assert(self.proposals@.last().wf());
            assert forall|i: int| 0 <= i < self.proposals@.len() implies (
            #[trigger] self.proposals@[i]).wf() && self.proposals@[i].id == i + 1
                && self.proposals@[i].guild_id >= 1 by {
                if i < self.proposals@.len() - 1 {
                    assert(self.proposals@[i] == old(self).proposals@[i]);
                }
            };
        }
        Ok(id)
    }

    /// Cast a direct vote. The proposal must be Active inside its voting
    /// window; the voter must belong to the guild, must not have voted, and
    /// must not have delegated. The voter's role weight is added to the
    /// chosen tally.
    pub fn vote(
        &mut self,
        guilds: &GuildRegistry,
        proposal_id: u64,
        voter: Principal,
        decision: VoteDecision,
        now: u64,
    ) -> (r: Result<(), Error>)
        requires
            old(self).wf(),
            guilds.wf(),
        ensures
            final(self).wf(),
            match r {
                Ok(()) => {
                    &&& old(self).has_proposal(proposal_id)
                    &&& guilds.has_guild(old(self).proposal_at(proposal_id).guild_id)
                    &&& old(self).proposal_at(proposal_id).status == ProposalStatus::Active
                    &&& now < old(self).proposal_at(proposal_id).voting_end
                    &&& guilds.guild_at(old(self).proposal_at(proposal_id).guild_id).has_member(
                        voter,
                    )
                    &&& !has_voted(old(self).proposal_at(proposal_id).votes@, voter)
                    &&& !guilds.guild_at(old(self).proposal_at(proposal_id).guild_id).has_delegation(
                        voter,
                    )
                    &&& final(self).same_but_proposal(*old(self), proposal_id)
                    &&& same_proposal_core(
                        final(self).proposal_at(proposal_id),
                        old(self).proposal_at(proposal_id),
                    )
                    &&& final(self).proposal_at(proposal_id).status == ProposalStatus::Active
                    &&& final(self).proposal_at(proposal_id).passed_at is None
                    &&& final(self).proposal_at(proposal_id).executed_at is None
                    &&& final(self).proposal_at(proposal_id).votes@ == old(self).proposal_at(
                        proposal_id,
                    ).votes@.push(
                        VoteRecord {
                            voter,
                            decision,
                            weight: spec_weight(
                                guilds.guild_at(
                                    old(self).proposal_at(proposal_id).guild_id,
                                ).role_of(voter),
                            ) as u64,
                        },
                    )
                    &&& forall|d: VoteDecision|
                        final(self).proposal_at(proposal_id).tally_of(d) == old(self).proposal_at(
                            proposal_id,
                        ).tally_of(d) + (if d == decision {
                            spec_weight(
                                guilds.guild_at(
                                    old(self).proposal_at(proposal_id).guild_id,
                                ).role_of(voter),
                            )
                        } else {
                            0
                        })
                },
                Err(e) => {
                    &&& *final(self) == *old(self)
                    &&& {
                        let c_found = old(self).has_proposal(proposal_id) && guilds.has_guild(
                            old(self).proposal_at(proposal_id).guild_id,
                        );
                        let c_open = old(self).proposal_at(proposal_id).status
                            == ProposalStatus::Active && now < old(self).proposal_at(
                            proposal_id,
                        ).voting_end;
                        let c_member = guilds.guild_at(
                            old(self).proposal_at(proposal_id).guild_id,
                        ).has_member(voter);
                        let c_fresh = !has_voted(old(self).proposal_at(proposal_id).votes@, voter);
                        let c_direct = !guilds.guild_at(
                            old(self).proposal_at(proposal_id).guild_id,
                        ).has_delegation(voter);
                        match e {
                            Error::NotFound => !c_found,
                            Error::BadState => c_found && (!c_open || (c_member && c_fresh
                                && !c_direct)),
                            Error::Unauthorized => c_found && c_open && !c_member,
                            Error::DuplicateState => c_found && c_open && c_member && !c_fresh,
                            _ => false,
                        }
                    }
                },
            },
    {
        if !(proposal_id >= 1 && proposal_id <= self.proposals.len() as u64) {
            return Err(Error::NotFound);
        }
        let pidx = (proposal_id - 1) as usize;
        let guild_id = self.proposals[pidx].guild_id;
        let g = match guilds.guild_ref(guild_id) {
            Ok(g) => g,
            Err(_) => {
                return Err(Error::NotFound);
            },
        };
        if !matches!(self.proposals[pidx].status, ProposalStatus::Active) || now
            >= self.proposals[pidx].voting_end {
            return Err(Error::BadState);
        }
        let mi = match g.find_member(voter) {
            Some(mi) => mi,
            None => {
                return Err(Error::Unauthorized);
            },
        };
        proof {
            g.lemma_member_idx(voter, mi as int);
        }
        if find_vote(&self.proposals[pidx].votes, voter).is_some() {
            return Err(Error::DuplicateState);
        }
        if g.find_delegation(voter).is_some() {
            return Err(Error::BadState);
        }
        let weight = g.members[mi].role.vote_weight();
        let ghost p0 = self.proposals@[pidx as int];
        let nv = self.proposals[pidx].votes.len();
        proof {
            assert(p0.wf());
            lemma_sum_weight_bound(p0.votes@, VoteDecision::For);
            lemma_sum_weight_bound(p0.votes@, VoteDecision::Against);
            lemma_sum_weight_bound(p0.votes@, VoteDecision::Abstain);
            assert(p0.votes_for <= 10 * nv);
            assert(p0.votes_against <= 10 * nv);
            assert(p0.votes_abstain <= 10 * nv);
        }
        let p = &mut self.proposals[pidx];
        let record = VoteRecord { voter, decision, weight };
        p.votes.push(record);
        match decision {
            VoteDecision::For => {
                p.votes_for = p.votes_for + weight as u128;
            },
            VoteDecision::Against => {
                p.votes_against = p.votes_against + weight as u128;
            },
            VoteDecision::Abstain => {
                p.votes_abstain = p.votes_abstain + weight as u128;
            },
        }
        proof {
            let pnew = self.proposals@[pidx as int];
            assert(pnew.votes@ == p0.votes@.push(record));
            assert(pnew.votes@.drop_last() == p0.votes@);
            assert forall|i: int, j: int| 0 <= i < j < pnew.votes@.len() implies pnew.votes@[i].voter
                != pnew.votes@[j].voter by {
                if j < pnew.votes@.len() - 1 {
                } else {
                    assert(pnew.votes@[j].voter == voter);
                    assert(pnew.votes@[i] == p0.votes@[i]);
                }
            };
            assert(weights_bounded(pnew.votes@)) by {
                assert(forall|i: int|
                    0 <= i < pnew.votes@.len() - 1 ==> pnew.votes@[i] == p0.votes@[i]);
            };
            assert(pnew.wf());
            self.lemma_props_wf_after_change(*old(self), pidx as int);
        }
        Ok(())
    }
}

impl GuildRegistry {
    /// Record that `delegator`'s weight follows `delegate`. Both must be
    /// members; self-delegation is refused; a previous edge of the
    /// delegator is overwritten.
    pub fn delegate_vote(&mut self, guild_id: u64, delegator: Principal, delegate: Principal)
        -> (r: Result<(), Error>)
        requires
            old(self).wf(),
        ensures
            final(self).wf(),
            match r {
                Ok(()) => {
                    &&& old(self).has_guild(guild_id)
                    &&& old(self).guild_at(guild_id).has_member(delegator)
                    &&& old(self).guild_at(guild_id).has_member(delegate)
                    &&& delegator != delegate
                    &&& final(self).same_but_guild(*old(self), guild_id)
                    &&& crate::guilds::same_but_delegations(
                        final(self).guild_at(guild_id),
                        old(self).guild_at(guild_id),
                    )
                    &&& final(self).guild_at(guild_id).delegations@ == (if old(self).guild_at(
                        guild_id,
                    ).has_delegation(delegator) {
                        old(self).guild_at(guild_id).delegations@.update(
                            old(self).guild_at(guild_id).delegation_idx(delegator),
                            Delegation { delegator, delegate },
                        )
                    } else {
                        old(self).guild_at(guild_id).delegations@.push(
                            Delegation { delegator, delegate },
                        )
                    })
                },
                Err(e) => {
                    &&& *final(self) == *old(self)
                    &&& match e {
                        Error::NotFound => !old(self).has_guild(guild_id) || !old(self).guild_at(
                            guild_id,
                        ).has_member(delegator) || !old(self).guild_at(guild_id).has_member(
                            delegate,
                        ),
                        Error::InvalidInput => old(self).has_guild(guild_id) && old(self).guild_at(
                            guild_id,
                        ).has_member(delegator) && old(self).guild_at(guild_id).has_member(delegate)
                            && delegator == delegate,
                        _ => false,
                    }
                },
            },
    {
        if !(guild_id >= 1 && guild_id <= self.guilds.len() as u64) {
            return Err(Error::NotFound);
        }
        let idx = (guild_id - 1) as usize;
        let ghost g0 = self.guilds@[idx as int];
        if self.guilds[idx].find_member(delegator).is_none() || self.guilds[idx].find_member(
            delegate,
        ).is_none() {
            return Err(Error::NotFound);
        }
        if delegator == delegate {
            return Err(Error::InvalidInput);
        }
        let edge = Delegation { delegator, delegate };
        let di = self.guilds[idx].find_delegation(delegator);
        let g = &mut self.guilds[idx];
        match di {
            Some(i) => {
                proof {
                    g0.lemma_delegation_idx(delegator, i as int);
                }
                let slot = &mut g.delegations[i];
                *slot = edge;
            },
            None => {
                g.delegations.push(edge);
            },
        }
        proof {
            let gnew = self.guilds@[idx as int];
            let n0 = g0.delegations@.len() as int;
            assert forall|i: int, j: int|
                0 <= i < j < gnew.delegations@.len() implies gnew.delegations@[i].delegator
                != gnew.delegations@[j].delegator by {
                match di {
                    Some(k) => {
                        if i != k {
                            assert(gnew.delegations@[i] == g0.delegations@[i]);
                        }
                        if j != k {
                            assert(gnew.delegations@[j] == g0.delegations@[j]);
                        }
                        if i == k {
                            assert(gnew.delegations@[i].delegator == g0.delegations@[k as int].delegator);
                        }
                        if j == k {
                            assert(gnew.delegations@[j].delegator == g0.delegations@[k as int].delegator);
                        }
                    },
                    None => {
                        if j < n0 {
                            assert(gnew.delegations@[i] == g0.delegations@[i]);
                            assert(gnew.delegations@[j] == g0.delegations@[j]);
                        } else {
                            assert(gnew.delegations@[j].delegator == delegator);
                            assert(gnew.delegations@[i] == g0.delegations@[i]);
                        }
                    },
                }
            };
            assert forall|i: int|
                0 <= i < gnew.delegations@.len() implies gnew.delegations@[i].delegator
                != gnew.delegations@[i].delegate by {
                match di {
                    Some(k) => {
                        if i != k {
                            assert(gnew.delegations@[i] == g0.delegations@[i]);
                        }
                    },
                    None => {
                        if i < n0 {
                            assert(gnew.delegations@[i] == g0.delegations@[i]);
                        }
                    },
                }
            };
            assert(gnew.wf());
            assert forall|i: int| 0 <= i < self.guilds@.len() implies (
            #[trigger] self.guilds@[i]).wf() && self.guilds@[i].id == i + 1 by {
                if i != idx {
                    assert(self.guilds@[i] == old(self).guilds@[i]);
                }
            };
        }
        Ok(())
    }

    /// Remove the delegation edge of `delegator`, if any.
    pub fn undelegate_vote(&mut self, guild_id: u64, delegator: Principal) -> (r: Result<
        (),
        Error,
    >)
        requires
            old(self).wf(),
        ensures
            final(self).wf(),
            match r {
                Ok(()) => {
                    &&& old(self).has_guild(guild_id)
                    &&& old(self).guild_at(guild_id).has_delegation(delegator)
                    &&& final(self).same_but_guild(*old(self), guild_id)
                    &&& crate::guilds::same_but_delegations(
                        final(self).guild_at(guild_id),
                        old(self).guild_at(guild_id),
                    )
                    &&& final(self).guild_at(guild_id).delegations@ == old(self).guild_at(
                        guild_id,
                    ).delegations@.remove(old(self).guild_at(guild_id).delegation_idx(delegator))
                    &&& !final(self).guild_at(guild_id).has_delegation(delegator)
                },
                Err(e) => {
                    &&& *final(self) == *old(self)
                    &&& e == Error::NotFound
                    &&& (!old(self).has_guild(guild_id) || !old(self).guild_at(
                        guild_id,
                    ).has_delegation(delegator))
                },
            },
    {
        if !(guild_id >= 1 && guild_id <= self.guilds.len() as u64) {
            return Err(Error::NotFound);
        }
        let idx = (guild_id - 1) as usize;
        let ghost g0 = self.guilds@[idx as int];
        let di = match self.guilds[idx].find_delegation(delegator) {
            Some(i) => i,
            None => {
                return Err(Error::NotFound);
            },
        };
        proof {
            g0.lemma_delegation_idx(delegator, di as int);
        }
        let g = &mut self.guilds[idx];
        g.delegations.remove(di);
        proof {
            let gnew = self.guilds@[idx as int];
            let d = di as int;
            assert(gnew.delegations@ == g0.delegations@.remove(d));
            assert forall|i: int, j: int|
                0 <= i < j < gnew.delegations@.len() implies gnew.delegations@[i].delegator
                != gnew.delegations@[j].delegator by {
                let i0 = if i < d {
                    i
                } else {
                    i + 1
                };
                let j0 = if j < d {
                    j
                } else {
                    j + 1
                };
                assert(gnew.delegations@[i] == g0.delegations@[i0]);
                assert(gnew.delegations@[j] == g0.delegations@[j0]);
            };
            assert forall|i: int|
                0 <= i < gnew.delegations@.len() implies gnew.delegations@[i].delegator
                != gnew.delegations@[i].delegate by {
                let i0 = if i < d {
                    i
                } else {
                    i + 1
                };
                assert(gnew.delegations@[i] == g0.delegations@[i0]);
            };
            assert forall|i: int| 0 <= i < gnew.delegations@.len() implies gnew.delegations@[i].delegator
                != delegator by {
                let i0 = if i < d {
                    i
                } else {
                    i + 1
                };
                assert(gnew.delegations@[i] == g0.delegations@[i0]);
                if i0 != d && g0.delegations@[i0].delegator == delegator {
                    g0.lemma_delegation_idx(delegator, i0);
                }
            };
            assert(!gnew.has_delegation(delegator));
            assert(gnew.wf());
            assert forall|i: int| 0 <= i < self.guilds@.len() implies (
            #[trigger] self.guilds@[i]).wf() && self.guilds@[i].id == i + 1 by {
                if i != idx {
                    assert(self.guilds@[i] == old(self).guilds@[i]);
                }
            };
        }
        Ok(())
    }

    /// Replace the guild's governance parameters, on behalf of an Owner.
    pub fn update_governance_config(
        &mut self,
        guild_id: u64,
        caller: Principal,
        config: GovernanceConfig,
    ) -> (r: Result<bool, Error>)
        requires
            old(self).wf(),
        ensures
            final(self).wf(),
            match r {
                Ok(b) => {
                    &&& b
                    &&& old(self).spec_has_permission(guild_id, caller, Role::Owner)
                    &&& config.wf()
                    &&& final(self).same_but_guild(*old(self), guild_id)
                    &&& crate::guilds::same_but_config(
                        final(self).guild_at(guild_id),
                        old(self).guild_at(guild_id),
                    )
                    &&& final(self).guild_at(guild_id).config == config
                },
                Err(e) => {
                    &&& *final(self) == *old(self)
                    &&& match e {
                        Error::NotFound => !old(self).has_guild(guild_id),
                        Error::Unauthorized => old(self).has_guild(guild_id) && !old(
                            self,
                        ).spec_has_permission(guild_id, caller, Role::Owner),
                        Error::InvalidInput => old(self).spec_has_permission(
                            guild_id,
                            caller,
                            Role::Owner,
                        ) && !config.wf(),
                        _ => false,
                    }
                },
            },
    {
        if !(guild_id >= 1 && guild_id <= self.guilds.len() as u64) {
            return Err(Error::NotFound);
        }
        if !self.has_permission(guild_id, caller, Role::Owner) {
            return Err(Error::Unauthorized);
        }
        if config.voting_period_seconds < 1 || config.quorum_percentage > 100
            || config.approval_threshold_percentage > 100 {
            return Err(Error::InvalidInput);
        }
        let idx = (guild_id - 1) as usize;
        let g = &mut self.guilds[idx];
        g.config = config;
        proof {
            assert forall|i: int| 0 <= i < self.guilds@.len() implies (
            #[trigger] self.guilds@[i]).wf() && self.guilds@[i].id == i + 1 by {
                if i != idx {
                    assert(self.guilds@[i] == old(self).guilds@[i]);
                }
            };
        }
        Ok(true)
    }
}

/// Delegated additions included: the tally a decision ends up with after
/// finalization.
pub open spec fn spec_final_tally(g: Guild, p: Proposal, d: VoteDecision) -> int {
    p.tally_of(d) + delegated_sum(g, p.votes@, d, g.delegations@.len() as int)
}

/// Total weight that participated, directly or through delegation.
pub open spec fn spec_votes_cast(g: Guild, p: Proposal) -> int {
    spec_final_tally(g, p, VoteDecision::For) + spec_final_tally(g, p, VoteDecision::Against)
        + spec_final_tally(g, p, VoteDecision::Abstain)
}

/// Quorum: the participating weight, scaled by 100, reaches the configured
/// percentage of the guild's total weight.
pub open spec fn spec_quorum_met(g: Guild, p: Proposal) -> bool {
    spec_votes_cast(g, p) * 100 >= g.config.quorum_percentage * total_weight(g.members@)
}

/// Approval: the For weight, scaled by 100, strictly exceeds the
/// configured percentage of the decided (For plus Against) weight.
pub open spec fn spec_approval_met(g: Guild, p: Proposal) -> bool {
    spec_final_tally(g, p, VoteDecision::For) * 100 > g.config.approval_threshold_percentage * (
    spec_final_tally(g, p, VoteDecision::For) + spec_final_tally(g, p, VoteDecision::Against))
}

/// Finalization result: Passed when quorum and approval are both met.
pub open spec fn spec_outcome(g: Guild, p: Proposal) -> ProposalStatus {
    if spec_quorum_met(g, p) && spec_approval_met(g, p) {
        ProposalStatus::Passed
    } else {
        ProposalStatus::Rejected
    }
}

/// The proposal as finalization leaves it: delegated contributions folded
/// into the tallies, the verdict recorded, and `passed_at` stamped when it
/// passed.
pub open spec fn spec_finalized_proposal(g: Guild, p: Proposal, now: u64) -> Proposal {
    Proposal {
        votes_for: spec_final_tally(g, p, VoteDecision::For) as u128,
        votes_against: spec_final_tally(g, p, VoteDecision::Against) as u128,
        votes_abstain: spec_final_tally(g, p, VoteDecision::Abstain) as u128,
        status: spec_outcome(g, p),
        passed_at: if spec_outcome(g, p) == ProposalStatus::Passed {
            Some(now)
        } else {
            p.passed_at
        },
        ..p
    }
}

/// The proposal execution starts from: finalized first when its voting
/// period has ended while it was still Active.
pub open spec fn spec_after_finalize(g: Guild, p: Proposal, now: u64) -> Proposal {
    if p.status == ProposalStatus::Active && now >= p.voting_end {
        spec_finalized_proposal(g, p, now)
    } else {
        p
    }
}

/// Whether the payload of a Passed proposal can be applied. Rule changes
/// and treasury spending demand the multisig gate (`gated`); membership
/// payloads demand that the membership change is actually possible.
pub open spec fn spec_payload_applies(
    guilds: GuildRegistry,
    p: Proposal,
    gated: bool,
) -> bool {
    match p.payload {
        ExecutionPayload::GeneralDecision => true,
        ExecutionPayload::TreasurySpend => gated,
        ExecutionPayload::RuleChange => gated,
        ExecutionPayload::AddMember { address, role } => guilds.has_guild(p.guild_id)
            && !guilds.guild_at(p.guild_id).has_member(address),
        ExecutionPayload::RemoveMember { address } => guilds.has_guild(p.guild_id)
            && guilds.guild_at(p.guild_id).has_member(address) && !(guilds.guild_at(
            p.guild_id,
        ).member_at(address).role == Role::Owner && !guilds.guild_at(p.guild_id).has_other_owner(
            address,
        )),
    }
}

/// How execution changes the guild registry: a successful membership
/// payload applies the change, everything else leaves the guilds alone.
pub open spec fn spec_guilds_after_apply(
    before: GuildRegistry,
    after: GuildRegistry,
    p: Proposal,
    success: bool,
    now: u64,
) -> bool {
    match p.payload {
        ExecutionPayload::AddMember { address, role } => if success {
            &&& after.same_but_guild(before, p.guild_id)
            &&& crate::guilds::same_but_members(
                after.guild_at(p.guild_id),
                before.guild_at(p.guild_id),
            )
            &&& after.guild_at(p.guild_id).members@ == before.guild_at(p.guild_id).members@.push(
                Member { address, role, joined_at: now },
            )
        } else {
            after == before
        },
        ExecutionPayload::RemoveMember { address } => if success {
            &&& after.same_but_guild(before, p.guild_id)
            &&& crate::guilds::same_but_members_delegations(
                after.guild_at(p.guild_id),
                before.guild_at(p.guild_id),
            )
            &&& after.guild_at(p.guild_id).members@ == before.guild_at(
                p.guild_id,
            ).members@.remove(before.guild_at(p.guild_id).member_idx(address))
            &&& !after.guild_at(p.guild_id).has_member(address)
        } else {
            after == before
        },
        _ => after == before,
    }
}

/// What executing a proposal does, shared by the plain and the
/// multisig-gated entry points: the proposal is auto-finalized when its
/// voting period ended, must then be Passed and inside the 3-day execution
/// window, and on success moves to Executed while its payload is applied.
pub open spec fn spec_execute_post(
    pre: GovernanceRegistry,
    post: GovernanceRegistry,
    gpre: GuildRegistry,
    gpost: GuildRegistry,
    proposal_id: u64,
    now: u64,
    gated: bool,
    r: Result<bool, Error>,
) -> bool {
    let p0 = pre.proposal_at(proposal_id);
    let gld = gpre.guild_at(p0.guild_id);
    let p1 = spec_after_finalize(gld, p0, now);
    let was_deciding = p0.status == ProposalStatus::Active && now >= p0.voting_end;
    match r {
        Ok(success) => {
            &&& pre.has_proposal(proposal_id)
            &&& (was_deciding ==> gpre.has_guild(p0.guild_id))
            &&& p1.status == ProposalStatus::Passed
            &&& p1.passed_at is Some
            &&& now <= p1.passed_at.unwrap() + EXECUTION_DEADLINE_SECONDS
            &&& success == spec_payload_applies(gpre, p1, gated)
            &&& post.same_but_proposal(pre, proposal_id)
            &&& post.proposal_at(proposal_id) == (if success {
                Proposal { status: ProposalStatus::Executed, executed_at: Some(now), ..p1 }
            } else {
                p1
            })
            &&& spec_guilds_after_apply(gpre, gpost, p1, success, now)
        },
        Err(e) => match e {
            Error::NotFound => {
                &&& (!pre.has_proposal(proposal_id) || (was_deciding && !gpre.has_guild(
                    p0.guild_id,
                )))
                &&& post == pre
                &&& gpost == gpre
            },
            Error::BadState => {
                &&& pre.has_proposal(proposal_id)
                &&& p1.status != ProposalStatus::Passed
                &&& post.same_but_proposal(pre, proposal_id)
                &&& post.proposal_at(proposal_id) == p1
                &&& gpost == gpre
            },
            Error::Timeout => {
                &&& pre.has_proposal(proposal_id)
                &&& p1.status == ProposalStatus::Passed
                &&& p1.passed_at is Some
                &&& now > p1.passed_at.unwrap() + EXECUTION_DEADLINE_SECONDS
                &&& post.same_but_proposal(pre, proposal_id)
                &&& post.proposal_at(proposal_id) == Proposal {
                    status: ProposalStatus::Expired,
                    ..p1
                }
                &&& gpost == gpre
            },
            _ => false,
        },
    }
}

/// Vote accounting: after finalization the three tallies together hold the
/// weight of every contributor exactly once: each direct voter's recorded
/// weight plus each resolved delegated contribution.
pub proof fn lemma_vote_accounting(g: Guild, p: Proposal)
    requires
        p.wf(),
        p.status == ProposalStatus::Active,
    ensures
        spec_final_tally(g, p, VoteDecision::For) + spec_final_tally(g, p, VoteDecision::Against)
            + spec_final_tally(g, p, VoteDecision::Abstain) == sum_weight_all(p.votes@)
            + delegated_sum_any(g, p.votes@, g.delegations@.len() as int),
{
    lemma_sum_weight_split(p.votes@);
    lemma_delegated_sum_split(g, p.votes@, g.delegations@.len() as int);
}

/// Quorum law: a Passed verdict certifies both the quorum inequality and
/// the approval inequality.
pub proof fn lemma_quorum_law(g: Guild, p: Proposal)
    ensures
        spec_outcome(g, p) == ProposalStatus::Passed ==> spec_quorum_met(g, p) && spec_approval_met(
            g,
            p,
        ),
        spec_outcome(g, p) == ProposalStatus::Passed || spec_outcome(g, p)
            == ProposalStatus::Rejected,
{
}

impl GovernanceRegistry {
    /// Finalize a proposal whose voting period has ended: fold the
    /// delegated contributions into the tallies, then decide by quorum and
    /// approval threshold. Terminal statuses are returned unchanged;
    /// anybody may call this.
    pub fn finalize_proposal(&mut self, guilds: &GuildRegistry, proposal_id: u64, now: u64) -> (r:
        Result<ProposalStatus, Error>)
        requires
            old(self).wf(),
            guilds.wf(),
        ensures
            final(self).wf(),
            match r {
                Ok(status) => {
                    &&& old(self).has_proposal(proposal_id)
                    &&& if old(self).proposal_at(proposal_id).status != ProposalStatus::Active {
                        &&& *final(self) == *old(self)
                        &&& status == old(self).proposal_at(proposal_id).status
                    } else {
                        &&& guilds.has_guild(old(self).proposal_at(proposal_id).guild_id)
                        &&& now >= old(self).proposal_at(proposal_id).voting_end
                        &&& final(self).same_but_proposal(*old(self), proposal_id)
                        &&& final(self).proposal_at(proposal_id) == spec_finalized_proposal(
                            guilds.guild_at(old(self).proposal_at(proposal_id).guild_id),
                            old(self).proposal_at(proposal_id),
                            now,
                        )
                        &&& status == spec_outcome(
                            guilds.guild_at(old(self).proposal_at(proposal_id).guild_id),
                            old(self).proposal_at(proposal_id),
                        )
                    }
                },
                Err(e) => {
                    &&& *final(self) == *old(self)
                    &&& match e {
                        Error::NotFound => !old(self).has_proposal(proposal_id) || (old(
                            self,
                        ).proposal_at(proposal_id).status == ProposalStatus::Active && now >= old(
                            self,
                        ).proposal_at(proposal_id).voting_end && !guilds.has_guild(
                            old(self).proposal_at(proposal_id).guild_id,
                        )),
                        Error::VotingOpen => old(self).has_proposal(proposal_id) && old(
                            self,
                        ).proposal_at(proposal_id).status == ProposalStatus::Active && now < old(
                            self,
                        ).proposal_at(proposal_id).voting_end,
                        _ => false,
                    }
                },
            },
    {
        if !(proposal_id >= 1 && proposal_id <= self.proposals.len() as u64) {
            return Err(Error::NotFound);
        }
        let pidx = (proposal_id - 1) as usize;
        let ghost p0 = self.proposals@[pidx as int];
        let current = self.proposals[pidx].status;
        if !matches!(current, ProposalStatus::Active) {
            return Ok(current);
        }
        if now < self.proposals[pidx].voting_end {
            return Err(Error::VotingOpen);
        }
        let guild_id = self.proposals[pidx].guild_id;
        let g = match guilds.guild_ref(guild_id) {
            Ok(g) => g,
            Err(_) => {
                return Err(Error::NotFound);
            },
        };
        let nv = self.proposals[pidx].votes.len();
        let ndel = g.delegations.len();
        let nmem = g.members.len();
        proof {
            assert(p0.wf());
            lemma_sum_weight_bound(p0.votes@, VoteDecision::For);
            lemma_sum_weight_bound(p0.votes@, VoteDecision::Against);
            lemma_sum_weight_bound(p0.votes@, VoteDecision::Abstain);
            lemma_delegated_sum_bound(*g, p0.votes@, VoteDecision::For, ndel as int);
            lemma_delegated_sum_bound(*g, p0.votes@, VoteDecision::Against, ndel as int);
            lemma_delegated_sum_bound(*g, p0.votes@, VoteDecision::Abstain, ndel as int);
            lemma_total_weight_bound(g.members@);
        }
        let (d_for, d_against, d_abstain) = compute_delegated_sums(g, &self.proposals[pidx].votes);
        let total = compute_total_weight(&g.members);
        let vf = self.proposals[pidx].votes_for + d_for;
        let va = self.proposals[pidx].votes_against + d_against;
        let vb = self.proposals[pidx].votes_abstain + d_abstain;
        let cast = vf + va + vb;
        let quorum = g.config.quorum_percentage as u128;
        let approval = g.config.approval_threshold_percentage as u128;
        proof {
            assert(cast <= 60 * (nv as int) + 60 * (ndel as int));
            assert(total <= 10 * (nmem as int));
            assert(quorum * total <= 100 * total) by (nonlinear_arith)
                requires
                    quorum <= 100,
                    total >= 0,
            ;
            assert(approval * (vf + va) <= 100 * (vf + va)) by (nonlinear_arith)
                requires
                    approval <= 100,
                    vf + va >= 0,
            ;
        }
        let quorum_ok = cast * 100 >= quorum * total;
        let approval_ok = vf * 100 > approval * (vf + va);
        let passed = quorum_ok && approval_ok;
        let status = if passed {
            ProposalStatus::Passed
        } else {
            ProposalStatus::Rejected
        };
        let p = &mut self.proposals[pidx];
        p.votes_for = vf;
        p.votes_against = va;
        p.votes_abstain = vb;
        p.status = status;
        if passed {
            p.passed_at = Some(now);
        }
        proof {
            let gld = guilds.guild_at(guild_id);
            assert(gld == *g);
            assert(quorum_ok == spec_quorum_met(gld, p0));
            assert(approval_ok == spec_approval_met(gld, p0));
            assert(status == spec_outcome(gld, p0));
            let pnew = self.proposals@[pidx as int];
            assert(pnew == spec_finalized_proposal(gld, p0, now));
            assert(pnew.wf());
            self.lemma_props_wf_after_change(*old(self), pidx as int);
        }
        Ok(status)
    }

    /// Shared execution path; `gated` says whether a multisig gate has
    /// already admitted rule-change and treasury payloads.
    fn execute_inner(
        &mut self,
        guilds: &mut GuildRegistry,
        proposal_id: u64,
        now: u64,
        gated: bool,
    ) -> (r: Result<bool, Error>)
        requires
            old(self).wf(),
            old(guilds).wf(),
        ensures
            final(self).wf(),
            final(guilds).wf(),
            spec_execute_post(
                *old(self),
                *final(self),
                *old(guilds),
                *final(guilds),
                proposal_id,
                now,
                gated,
                r,
            ),
    {
        if !(proposal_id >= 1 && proposal_id <= self.proposals.len() as u64) {
            return Err(Error::NotFound);
        }
        let pidx = (proposal_id - 1) as usize;
        let ghost p0 = self.proposals@[pidx as int];
        if matches!(self.proposals[pidx].status, ProposalStatus::Active) && now
            >= self.proposals[pidx].voting_end {
            match self.finalize_proposal(&*guilds, proposal_id, now) {
                Ok(_) => {},
                Err(_) => {
                    return Err(Error::NotFound);
                },
            }
        }
        let ghost p1 = self.proposals@[pidx as int];
        proof {
            assert(p1 == spec_after_finalize(guilds.guild_at(p0.guild_id), p0, now));
        }
        if !matches!(self.proposals[pidx].status, ProposalStatus::Passed) {
            return Err(Error::BadState);
        }
        proof {
            assert(self.proposals@[pidx as int].wf());
        }
        let pa = match self.proposals[pidx].passed_at {
            Some(t) => t,
            None => {
                proof {
                    assert(false);
                }
                0
            },
        };
        let expired = match pa.checked_add(EXECUTION_DEADLINE_SECONDS) {
            Some(d) => now > d,
            None => false,
        };
        if expired {
            let p = &mut self.proposals[pidx];
            p.status = ProposalStatus::Expired;
            proof {
                self.lemma_props_wf_after_change(*old(self), pidx as int);
            }
            return Err(Error::Timeout);
        }
        let payload = self.proposals[pidx].payload;
        let guild_id = self.proposals[pidx].guild_id;
        let success = match payload {
            ExecutionPayload::GeneralDecision => true,
            ExecutionPayload::TreasurySpend => gated,
            ExecutionPayload::RuleChange => gated,
            ExecutionPayload::AddMember { address, role } => guilds.apply_add_member(
                guild_id,
                address,
                role,
                now,
            ),
            ExecutionPayload::RemoveMember { address } => guilds.apply_remove_member(
                guild_id,
                address,
            ),
        };
        if success {
            let p = &mut self.proposals[pidx];
            p.status = ProposalStatus::Executed;
            p.executed_at = Some(now);
            proof {
                self.lemma_props_wf_after_change(*old(self), pidx as int);
            }
        }
        Ok(success)
    }

    /// Execute a Passed proposal inside its 3-day window. Rule-change and
    /// treasury payloads are refused here: they go through the
    /// multisig-gated entry point. Returns whether the payload applied; on
    /// success the proposal moves to Executed.
    pub fn execute_proposal(
        &mut self,
        guilds: &mut GuildRegistry,
        proposal_id: u64,
        _executor: Principal,
        now: u64,
    ) -> (r: Result<bool, Error>)
        requires
            old(self).wf(),
            old(guilds).wf(),
        ensures
            final(self).wf(),
            final(guilds).wf(),
            spec_execute_post(
                *old(self),
                *final(self),
                *old(guilds),
                *final(guilds),
                proposal_id,
                now,
                false,
                r,
            ),
    {
        self.execute_inner(guilds, proposal_id, now, false)
    }

    /// The multisig gate is satisfied for governance execution: the named
    /// operation exists, is Executed, and is a GovernanceUpdate.
    pub open spec fn spec_gov_gate_ok(ms: MultiSigRegistry, op_id: u64) -> bool {
        &&& ms.has_operation(op_id)
        &&& ms.operation_at(op_id).status == crate::multisig::OperationStatus::Executed
        &&& ms.operation_at(op_id).op_type == OperationType::GovernanceUpdate
    }

    /// Execute a proposal behind the multisig gate: an executed
    /// GovernanceUpdate operation admits every payload type.
    pub fn ms_execute_governance_proposal(
        &mut self,
        guilds: &mut GuildRegistry,
        ms: &MultiSigRegistry,
        op_id: u64,
        proposal_id: u64,
        _executor: Principal,
        now: u64,
    ) -> (r: Result<bool, Error>)
        requires
            old(self).wf(),
            old(guilds).wf(),
            ms.wf(),
        ensures
            final(self).wf(),
            final(guilds).wf(),
            match r {
                Ok(success) => GovernanceRegistry::spec_gov_gate_ok(*ms, op_id)
                    && spec_execute_post(
                    *old(self),
                    *final(self),
                    *old(guilds),
                    *final(guilds),
                    proposal_id,
                    now,
                    true,
                    r,
                ),
                Err(e) => {
                    ||| (!GovernanceRegistry::spec_gov_gate_ok(*ms, op_id) && *final(self) == *old(
                        self,
                    ) && *final(guilds) == *old(guilds) && match e {
                        Error::NotFound => !ms.has_operation(op_id),
                        Error::BadState => ms.has_operation(op_id) && ms.operation_at(op_id).status
                            != crate::multisig::OperationStatus::Executed,
                        Error::TypeMismatch => ms.has_operation(op_id) && ms.operation_at(
                            op_id,
                        ).status == crate::multisig::OperationStatus::Executed && ms.operation_at(
                            op_id,
                        ).op_type != OperationType::GovernanceUpdate,
                        _ => false,
                    })
                    ||| (GovernanceRegistry::spec_gov_gate_ok(*ms, op_id) && spec_execute_post(
                        *old(self),
                        *final(self),
                        *old(guilds),
                        *final(guilds),
                        proposal_id,
                        now,
                        true,
                        r,
                    ))
                },
            },
    {
        match ms.ms_require_executed_operation(op_id, OperationType::GovernanceUpdate) {
            Ok(()) => {},
            Err(e) => {
                return Err(e);
            },
        }
        self.execute_inner(guilds, proposal_id, now, true)
    }

    /// Cancel an Active proposal, on behalf of its proposer or a guild
    /// Admin.
    pub fn cancel_proposal(
        &mut self,
        guilds: &GuildRegistry,
        proposal_id: u64,
        caller: Principal,
    ) -> (r: Result<(), Error>)
        requires
            old(self).wf(),
            guilds.wf(),
        ensures
            final(self).wf(),
            match r {
                Ok(()) => {
                    &&& old(self).has_proposal(proposal_id)
                    &&& (caller == old(self).proposal_at(proposal_id).proposer
                        || guilds.spec_has_permission(
                        old(self).proposal_at(proposal_id).guild_id,
                        caller,
                        Role::Admin,
                    ))
                    &&& old(self).proposal_at(proposal_id).status == ProposalStatus::Active
                    &&& final(self).same_but_proposal(*old(self), proposal_id)
                    &&& final(self).proposal_at(proposal_id) == Proposal {
                        status: ProposalStatus::Cancelled,
                        ..old(self).proposal_at(proposal_id)
                    }
                },
                Err(e) => {
                    &&& *final(self) == *old(self)
                    &&& match e {
                        Error::NotFound => !old(self).has_proposal(proposal_id),
                        Error::Unauthorized => old(self).has_proposal(proposal_id) && caller != old(
                            self,
                        ).proposal_at(proposal_id).proposer && !guilds.spec_has_permission(
                            old(self).proposal_at(proposal_id).guild_id,
                            caller,
                            Role::Admin,
                        ),
                        Error::BadState => old(self).has_proposal(proposal_id) && (caller == old(
                            self,
                        ).proposal_at(proposal_id).proposer || guilds.spec_has_permission(
                            old(self).proposal_at(proposal_id).guild_id,
                            caller,
                            Role::Admin,
                        )) && old(self).proposal_at(proposal_id).status != ProposalStatus::Active,
                        _ => false,
                    }
                },
            },
    {
        if !(proposal_id >= 1 && proposal_id <= self.proposals.len() as u64) {
            return Err(Error::NotFound);
        }
        let pidx = (proposal_id - 1) as usize;
        let guild_id = self.proposals[pidx].guild_id;
        let authorized = self.proposals[pidx].proposer == caller || guilds.has_permission(
            guild_id,
            caller,
            Role::Admin,
        );
        if !authorized {
            return Err(Error::Unauthorized);
        }
        if !matches!(self.proposals[pidx].status, ProposalStatus::Active) {
            return Err(Error::BadState);
        }
        let p = &mut self.proposals[pidx];
        p.status = ProposalStatus::Cancelled;
        proof {
            self.lemma_props_wf_after_change(*old(self), pidx as int);
        }
        Ok(())
    }

    /// Ids of the guild's proposals that are still Active.
    pub fn get_active_proposals(&self, guild_id: u64) -> (r: Vec<u64>)
        requires
            self.wf(),
        ensures
            r@ == spec_active_ids(self.proposals@, guild_id),
    {
        let mut out: Vec<u64> = Vec::new();
        let mut i: usize = 0;
        while i < self.proposals.len()
            invariant
                i <= self.proposals@.len(),
                out@ == spec_active_ids(self.proposals@.take(i as int), guild_id),
            decreases self.proposals@.len() - i,
        {
            proof {
                assert(self.proposals@.take(i + 1).drop_last() == self.proposals@.take(i as int));
                assert(self.proposals@.take(i + 1).last() == self.proposals@[i as int]);
            }
            let p = &self.proposals[i];
            if p.guild_id == guild_id && matches!(p.status, ProposalStatus::Active) {
                out.push(p.id);
            }
            i += 1;
        }
        proof {
            assert(self.proposals@.take(self.proposals@.len() as int) == self.proposals@);
        }
        out
    }
}

/// Monotonic ids: proposal ids equal one plus their creation rank, so
/// they strictly increase and are never reused.
pub proof fn lemma_proposal_ids_monotonic(reg: GovernanceRegistry, i: int, j: int)
    requires
        reg.wf(),
        0 <= i < j < reg.proposals@.len(),
    ensures
        reg.proposals@[i].id < reg.proposals@[j].id,
{
}

/// Ids of the Active proposals of one guild, in id order.
pub open spec fn spec_active_ids(props: Seq<Proposal>, guild_id: u64) -> Seq<u64>
    decreases props.len(),
{
    if props.len() == 0 {
        Seq::empty()
    } else {
        let prefix = spec_active_ids(props.drop_last(), guild_id);
        if props.last().guild_id == guild_id && props.last().status == ProposalStatus::Active {
            prefix.push(props.last().id)
        } else {
            prefix
        }
    }
}

} // verus!
