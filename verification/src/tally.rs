//! Vote records, weighted tallies, and bounded transitive delegation
//! resolution.

use vstd::prelude::*;

use crate::guilds::Guild;
use crate::roles::spec_weight;
use crate::{Principal, DELEGATION_HOP_CAP};

verus! {

#[derive(Clone, Copy, Debug, PartialEq, Eq, Structural)]
pub enum VoteDecision {
    For,
    Against,
    Abstain,
}

/// A direct vote cast on a proposal, with the weight the voter's role
/// carried at voting time.
#[derive(Clone, Copy, Debug, PartialEq, Eq, Structural)]
pub struct VoteRecord {
    pub voter: Principal,
    pub decision: VoteDecision,
    pub weight: u64,
}

/// At most one record per principal.
pub open spec fn votes_distinct(votes: Seq<VoteRecord>) -> bool {
    forall|i: int, j: int| 0 <= i < j < votes.len() ==> votes[i].voter != votes[j].voter
}

/// Every recorded weight is a role weight: between 1 and 10.
pub open spec fn weights_bounded(votes: Seq<VoteRecord>) -> bool {
    forall|i: int| 0 <= i < votes.len() ==> 1 <= (#[trigger] votes[i]).weight <= 10
}

pub open spec fn has_voted(votes: Seq<VoteRecord>, p: Principal) -> bool {
    exists|i: int| 0 <= i < votes.len() && votes[i].voter == p
}

pub open spec fn vote_idx(votes: Seq<VoteRecord>, p: Principal) -> int {
    choose|i: int| 0 <= i < votes.len() && votes[i].voter == p
}

pub open spec fn vote_of(votes: Seq<VoteRecord>, p: Principal) -> VoteRecord {
    votes[vote_idx(votes, p)]
}

/// With distinct voters, any matching index is the vote index.
pub proof fn lemma_vote_idx(votes: Seq<VoteRecord>, p: Principal, i: int)
    requires
        votes_distinct(votes),
        0 <= i < votes.len(),
        votes[i].voter == p,
    ensures
        has_voted(votes, p),
        vote_idx(votes, p) == i,
{
    assert(has_voted(votes, p));
    let j = vote_idx(votes, p);
    if j < i {
        assert(votes[j].voter != votes[i].voter);
    } else if i < j {
        assert(votes[i].voter != votes[j].voter);
    }
}

/// Sum of the recorded weights of the votes cast for decision `d`.
pub open spec fn sum_weight_for(votes: Seq<VoteRecord>, d: VoteDecision) -> int
    decreases votes.len(),
{
    if votes.len() == 0 {
        0
    } else {
        sum_weight_for(votes.drop_last(), d) + if votes.last().decision == d {
            votes.last().weight as int
        } else {
            0
        }
    }
}

/// Sum of all recorded weights.
pub open spec fn sum_weight_all(votes: Seq<VoteRecord>) -> int
    decreases votes.len(),
{
    if votes.len() == 0 {
        0
    } else {
        sum_weight_all(votes.drop_last()) + votes.last().weight as int
    }
}

/// A per-decision sum lies between 0 and ten times the record count.
pub proof fn lemma_sum_weight_bound(votes: Seq<VoteRecord>, d: VoteDecision)
    requires
        weights_bounded(votes),
    ensures
        0 <= sum_weight_for(votes, d) <= 10 * votes.len(),
    decreases votes.len(),
{
    if votes.len() > 0 {
        assert(weights_bounded(votes.drop_last())) by {
            assert(forall|i: int|
                0 <= i < votes.len() - 1 ==> votes.drop_last()[i] == votes[i]);
        };
        lemma_sum_weight_bound(votes.drop_last(), d);
    }
}

/// Direct votes partition the total direct weight by decision.
pub proof fn lemma_sum_weight_split(votes: Seq<VoteRecord>)
    ensures
        sum_weight_all(votes) == sum_weight_for(votes, VoteDecision::For) + sum_weight_for(
            votes,
            VoteDecision::Against,
        ) + sum_weight_for(votes, VoteDecision::Abstain),
    decreases votes.len(),
{
    if votes.len() > 0 {
        lemma_sum_weight_split(votes.drop_last());
    }
}

/// Vote weight `p` carries in `g`: the weight of its role, or 0 for a
/// non-member.
pub open spec fn member_weight(g: Guild, p: Principal) -> int {
    if g.has_member(p) {
        spec_weight(g.role_of(p))
    } else {
        0
    }
}

/// Sum of the vote weights of all membership records.
pub open spec fn total_weight(members: Seq<crate::guilds::Member>) -> int
    decreases members.len(),
{
    if members.len() == 0 {
        0
    } else {
        total_weight(members.drop_last()) + spec_weight(members.last().role)
    }
}

pub proof fn lemma_total_weight_bound(members: Seq<crate::guilds::Member>)
    ensures
        0 <= total_weight(members) <= 10 * members.len(),
    decreases members.len(),
{
    if members.len() > 0 {
        lemma_total_weight_bound(members.drop_last());
    }
}

/// Walk the delegation chain from `p` with bounded fuel. `None` means the
/// walk ran out of fuel (a cycle or an over-long chain): the contribution
/// is dropped. `Some(root)` is the first principal without an outgoing
/// edge.
pub open spec fn resolve_delegate(g: Guild, p: Principal, fuel: nat) -> Option<Principal>
    decreases fuel,
{
    if !g.has_delegation(p) {
        Some(p)
    } else if fuel == 0 {
        None
    } else {
        resolve_delegate(g, g.delegations@[g.delegation_idx(p)].delegate, (fuel - 1) as nat)
    }
}

/// Weight that delegation edge `k` contributes to decision `d`: the
/// delegator's weight, redirected to the chain root's decision, provided
/// the delegator did not vote directly and the root cast a direct vote.
pub open spec fn contribution(g: Guild, votes: Seq<VoteRecord>, k: int, d: VoteDecision) -> int {
    let delegator = g.delegations@[k].delegator;
    if has_voted(votes, delegator) {
        0
    } else {
        match resolve_delegate(g, delegator, DELEGATION_HOP_CAP as nat) {
            Some(root) => if has_voted(votes, root) && vote_of(votes, root).decision == d {
                member_weight(g, delegator)
            } else {
                0
            },
            None => 0,
        }
    }
}

/// Weight edge `k` contributes to any decision.
pub open spec fn contribution_any(g: Guild, votes: Seq<VoteRecord>, k: int) -> int {
    let delegator = g.delegations@[k].delegator;
    if has_voted(votes, delegator) {
        0
    } else {
        match resolve_delegate(g, delegator, DELEGATION_HOP_CAP as nat) {
            Some(root) => if has_voted(votes, root) {
                member_weight(g, delegator)
            } else {
                0
            },
            None => 0,
        }
    }
}

/// Sum of the contributions of the first `n` delegation edges to `d`.
pub open spec fn delegated_sum(g: Guild, votes: Seq<VoteRecord>, d: VoteDecision, n: int) -> int
    decreases n,
{
    if n <= 0 {
        0
    } else {
        delegated_sum(g, votes, d, n - 1) + contribution(g, votes, n - 1, d)
    }
}

/// Sum of the contributions of the first `n` edges to any decision.
pub open spec fn delegated_sum_any(g: Guild, votes: Seq<VoteRecord>, n: int) -> int
    decreases n,
{
    if n <= 0 {
        0
    } else {
        delegated_sum_any(g, votes, n - 1) + contribution_any(g, votes, n - 1)
    }
}

pub proof fn lemma_contribution_bounds(g: Guild, votes: Seq<VoteRecord>, k: int, d: VoteDecision)
    ensures
        0 <= contribution(g, votes, k, d) <= 10,
        0 <= contribution_any(g, votes, k) <= 10,
{
    let delegator = g.delegations@[k].delegator;
    if g.has_member(delegator) {
        crate::roles::lemma_weight_bounds(g.role_of(delegator));
    }
}

pub proof fn lemma_delegated_sum_bound(g: Guild, votes: Seq<VoteRecord>, d: VoteDecision, n: int)
    requires
        n >= 0,
    ensures
        0 <= delegated_sum(g, votes, d, n) <= 10 * n,
        0 <= delegated_sum_any(g, votes, n) <= 10 * n,
    decreases n,
{
    if n > 0 {
        lemma_delegated_sum_bound(g, votes, d, n - 1);
        lemma_contribution_bounds(g, votes, n - 1, d);
    }
}

/// A delegation edge contributes to exactly one decision: the per-decision
/// delegated sums partition the delegated total.
pub proof fn lemma_delegated_sum_split(g: Guild, votes: Seq<VoteRecord>, n: int)
    ensures
        delegated_sum_any(g, votes, n) == delegated_sum(g, votes, VoteDecision::For, n)
            + delegated_sum(g, votes, VoteDecision::Against, n) + delegated_sum(
            g,
            votes,
            VoteDecision::Abstain,
            n,
        ),
    decreases n,
{
    if n > 0 {
        lemma_delegated_sum_split(g, votes, n - 1);
    }
}

/// No double counting: a principal that voted directly contributes nothing
/// through its delegation edge.
pub proof fn lemma_direct_vote_excludes_delegation(
    g: Guild,
    votes: Seq<VoteRecord>,
    k: int,
    d: VoteDecision,
)
    requires
        has_voted(votes, g.delegations@[k].delegator),
    ensures
        contribution(g, votes, k, d) == 0,
        contribution_any(g, votes, k) == 0,
{
}

/// In a delegation graph where every delegate also delegates (as in any
/// cycle reachable from `p`), the bounded walk exhausts its fuel and the
/// contribution is dropped rather than looping forever.
pub proof fn lemma_cycle_resolves_to_none(g: Guild, p: Principal, fuel: nat)
    requires
        g.has_delegation(p),
        forall|i: int|
            0 <= i < g.delegations@.len() ==> g.has_delegation(
                #[trigger] g.delegations@[i].delegate,
            ),
    ensures
        resolve_delegate(g, p, fuel) is None,
    decreases fuel,
{
    if fuel > 0 {
        let next = g.delegations@[g.delegation_idx(p)].delegate;
        assert(g.has_delegation(next));
        lemma_cycle_resolves_to_none(g, next, (fuel - 1) as nat);
    }
}

/// Find the vote record index of `p`.
pub fn find_vote(votes: &Vec<VoteRecord>, p: Principal) -> (r: Option<usize>)
    ensures
        match r {
            Some(i) => i < votes@.len() && votes@[i as int].voter == p,
            None => !has_voted(votes@, p),
        },
{
    let mut i: usize = 0;
    while i < votes.len()
        invariant
            i <= votes@.len(),
            forall|j: int| 0 <= j < i ==> votes@[j].voter != p,
        decreases votes@.len() - i,
    {
        if votes[i].voter == p {
            return Some(i);
        }
        i += 1;
    }
    None
}

/// Walk the delegation chain from `p`, spending one unit of fuel per hop.
pub fn resolve_delegate_exec(g: &Guild, p: Principal, fuel: u64) -> (r: Option<Principal>)
    requires
        g.wf(),
    ensures
        r == resolve_delegate(*g, p, fuel as nat),
    decreases fuel,
{
    match g.find_delegation(p) {
        None => Some(p),
        Some(i) => {
            proof {
                g.lemma_delegation_idx(p, i as int);
            }
            if fuel == 0 {
                None
            } else {
                let next = g.delegations[i].delegate;
                resolve_delegate_exec(g, next, fuel - 1)
            }
        },
    }
}

/// Total vote weight of the guild's membership.
pub fn compute_total_weight(members: &Vec<crate::guilds::Member>) -> (r: u128)
    ensures
        r == total_weight(members@),
{
    let mut total: u128 = 0;
    let mut i: usize = 0;
    while i < members.len()
        invariant
            i <= members@.len(),
            total == total_weight(members@.take(i as int)),
            total <= 10 * i,
        decreases members@.len() - i,
    {
        proof {
            assert(members@.take(i + 1).drop_last() == members@.take(i as int));
            assert(members@.take(i + 1).last() == members@[i as int]);
        }
        total = total + members[i].role.vote_weight() as u128;
        i += 1;
    }
    proof {
        assert(members@.take(members@.len() as int) == members@);
    }
    total
}

/// The delegated additions to the three tallies: for each delegation edge
/// whose delegator did not vote directly, resolve the chain root with a
/// 16-hop budget and, when the root voted, add the delegator's weight to
/// the root's chosen tally.
pub fn compute_delegated_sums(g: &Guild, votes: &Vec<VoteRecord>) -> (r: (u128, u128, u128))
    requires
        g.wf(),
        votes_distinct(votes@),
    ensures
        r.0 == delegated_sum(*g, votes@, VoteDecision::For, g.delegations@.len() as int),
        r.1 == delegated_sum(*g, votes@, VoteDecision::Against, g.delegations@.len() as int),
        r.2 == delegated_sum(*g, votes@, VoteDecision::Abstain, g.delegations@.len() as int),
{
    let mut d_for: u128 = 0;
    let mut d_against: u128 = 0;
    let mut d_abstain: u128 = 0;
    let mut k: usize = 0;
    while k < g.delegations.len()
        invariant
            g.wf(),
            votes_distinct(votes@),
            k <= g.delegations@.len(),
            d_for == delegated_sum(*g, votes@, VoteDecision::For, k as int),
            d_against == delegated_sum(*g, votes@, VoteDecision::Against, k as int),
            d_abstain == delegated_sum(*g, votes@, VoteDecision::Abstain, k as int),
            d_for <= 10 * k,
            d_against <= 10 * k,
            d_abstain <= 10 * k,
        decreases g.delegations@.len() - k,
    {
        proof {
            lemma_contribution_bounds(*g, votes@, k as int, VoteDecision::For);
        }
        let delegator = g.delegations[k].delegator;
        if find_vote(votes, delegator).is_none() {
            match resolve_delegate_exec(g, delegator, DELEGATION_HOP_CAP) {
                Some(root) => {
                    match find_vote(votes, root) {
                        Some(vi) => {
                            proof {
                                lemma_vote_idx(votes@, root, vi as int);
                            }
                            let w = match g.find_member(delegator) {
                                Some(mi) => {
                                    proof {
                                        g.lemma_member_idx(delegator, mi as int);
                                    }
                                    g.members[mi].role.vote_weight()
                                },
                                None => 0,
                            };
                            proof {
                                assert(w as int == member_weight(*g, delegator));
                            }
                            match votes[vi].decision {
                                VoteDecision::For => {
                                    d_for = d_for + w as u128;
                                },
                                VoteDecision::Against => {
                                    d_against = d_against + w as u128;
                                },
                                VoteDecision::Abstain => {
                                    d_abstain = d_abstain + w as u128;
                                },
                            }
                        },
                        None => {},
                    }
                },
                None => {},
            }
        }
        k += 1;
    }
    (d_for, d_against, d_abstain)
}

} // verus!
