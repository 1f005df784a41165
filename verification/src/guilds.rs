//! Guild membership registry: guild creation, member management, role-based
//! authorization, and the per-guild delegation edges.

use vstd::prelude::*;
use vstd::string::StrSliceExecFns;

use crate::roles::{Role, spec_role_ge, spec_rank};
use crate::{Error, Principal};
use crate::{DEFAULT_APPROVAL_PERCENTAGE, DEFAULT_QUORUM_PERCENTAGE, DEFAULT_VOTING_PERIOD};

verus! {

/// Membership record of one principal in one guild.
#[derive(Clone, Copy, Debug, PartialEq, Eq, Structural)]
pub struct Member {
    pub address: Principal,
    pub role: Role,
    pub joined_at: u64,
}

/// One delegation edge: the delegator's vote weight follows the delegate.
#[derive(Clone, Copy, Debug, PartialEq, Eq, Structural)]
pub struct Delegation {
    pub delegator: Principal,
    pub delegate: Principal,
}

/// Per-guild governance parameters; mutable only by a guild owner.
#[derive(Clone, Copy, Debug, PartialEq, Eq, Structural)]
pub struct GovernanceConfig {
    pub voting_period_seconds: u64,
    pub quorum_percentage: u32,
    pub approval_threshold_percentage: u32,
}

impl GovernanceConfig {
    /// Percentages stay within 100 and the voting period is positive.
    pub open spec fn wf(self) -> bool {
        &&& 1 <= self.voting_period_seconds
        &&& self.quorum_percentage <= 100
        &&& self.approval_threshold_percentage <= 100
    }

    pub open spec fn spec_default() -> GovernanceConfig {
        GovernanceConfig {
            voting_period_seconds: DEFAULT_VOTING_PERIOD,
            quorum_percentage: DEFAULT_QUORUM_PERCENTAGE,
            approval_threshold_percentage: DEFAULT_APPROVAL_PERCENTAGE,
        }
    }
}

impl Default for GovernanceConfig {
    /// 7-day voting period, 30% quorum, 50% approval threshold.
    fn default() -> (c: GovernanceConfig)
        ensures
            c == GovernanceConfig::spec_default(),
    {
        GovernanceConfig {
            voting_period_seconds: DEFAULT_VOTING_PERIOD,
            quorum_percentage: DEFAULT_QUORUM_PERCENTAGE,
            approval_threshold_percentage: DEFAULT_APPROVAL_PERCENTAGE,
        }
    }
}

/// A named community with role-graded members and delegation edges.
pub struct Guild {
    pub id: u64,
    pub name: String,
    pub description: String,
    pub members: Vec<Member>,
    pub delegations: Vec<Delegation>,
    pub config: GovernanceConfig,
}

impl Guild {
    /// No two membership records share an address.
    pub open spec fn members_distinct(self) -> bool {
        forall|i: int, j: int|
            0 <= i < j < self.members@.len() ==> self.members@[i].address
                != self.members@[j].address
    }

    /// At least one member holds the Owner role.
    pub open spec fn has_owner(self) -> bool {
        exists|i: int| 0 <= i < self.members@.len() && self.members@[i].role == Role::Owner
    }

    /// No two delegation edges share a delegator, and nobody delegates to
    /// themselves.
    pub open spec fn delegations_wf(self) -> bool {
        &&& forall|i: int, j: int|
            0 <= i < j < self.delegations@.len() ==> self.delegations@[i].delegator
                != self.delegations@[j].delegator
        &&& forall|i: int|
            0 <= i < self.delegations@.len() ==> self.delegations@[i].delegator
                != self.delegations@[i].delegate
    }

    /// Well-formedness: established at creation and preserved by every
    /// membership operation.
    pub open spec fn wf(self) -> bool {
        &&& self.members_distinct()
        &&& self.has_owner()
        &&& self.delegations_wf()
        &&& self.config.wf()
        &&& 1 <= self.name@.len() <= 64
        &&& self.description@.len() <= 512
    }

    pub open spec fn has_member(self, p: Principal) -> bool {
        exists|i: int| 0 <= i < self.members@.len() && self.members@[i].address == p
    }

    /// Index of the membership record of `p`; meaningful only when
    /// `has_member(p)` holds and addresses are distinct.
    pub open spec fn member_idx(self, p: Principal) -> int {
        choose|i: int| 0 <= i < self.members@.len() && self.members@[i].address == p
    }

    pub open spec fn member_at(self, p: Principal) -> Member {
        self.members@[self.member_idx(p)]
    }

    pub open spec fn role_of(self, p: Principal) -> Role {
        self.member_at(p).role
    }

    /// The permission predicate: membership plus role dominance.
    pub open spec fn spec_has_permission(self, p: Principal, required: Role) -> bool {
        self.has_member(p) && spec_role_ge(self.role_of(p), required)
    }

    /// Some member other than `p` holds the Owner role.
    pub open spec fn has_other_owner(self, p: Principal) -> bool {
        exists|i: int|
            0 <= i < self.members@.len() && self.members@[i].role == Role::Owner
                && self.members@[i].address != p
    }

    pub open spec fn has_delegation(self, p: Principal) -> bool {
        exists|i: int| 0 <= i < self.delegations@.len() && self.delegations@[i].delegator == p
    }

    pub open spec fn delegation_idx(self, p: Principal) -> int {
        choose|i: int| 0 <= i < self.delegations@.len() && self.delegations@[i].delegator == p
    }

    /// With distinct addresses, any index whose record matches `p` is the
    /// member index.
    pub proof fn lemma_member_idx(self, p: Principal, i: int)
        requires
            self.members_distinct(),
            0 <= i < self.members@.len(),
            self.members@[i].address == p,
        ensures
            self.has_member(p),
            self.member_idx(p) == i,
    {
        assert(self.has_member(p));
        let j = self.member_idx(p);
        if j < i {
            assert(self.members@[j].address != self.members@[i].address);
        } else if i < j {
            assert(self.members@[i].address != self.members@[j].address);
        }
    }

    /// With distinct delegators, any index whose edge matches `p` is the
    /// delegation index.
    pub proof fn lemma_delegation_idx(self, p: Principal, i: int)
        requires
            self.delegations_wf(),
            0 <= i < self.delegations@.len(),
            self.delegations@[i].delegator == p,
        ensures
            self.has_delegation(p),
            self.delegation_idx(p) == i,
    {
        assert(self.has_delegation(p));
        let j = self.delegation_idx(p);
        if j < i {
            assert(self.delegations@[j].delegator != self.delegations@[i].delegator);
        } else if i < j {
            assert(self.delegations@[i].delegator != self.delegations@[j].delegator);
        }
    }

    /// Find the membership record index of `p`.
    pub fn find_member(&self, p: Principal) -> (r: Option<usize>)
        ensures
            match r {
                Some(i) => i < self.members@.len() && self.members@[i as int].address == p,
                None => !self.has_member(p),
            },
    {
        let mut i: usize = 0;
        while i < self.members.len()
            invariant
                i <= self.members@.len(),
                forall|j: int| 0 <= j < i ==> self.members@[j].address != p,
            decreases self.members@.len() - i,
        {
            if self.members[i].address == p {
                return Some(i);
            }
            i += 1;
        }
        None
    }

    /// Find the delegation edge whose delegator is `p`.
    pub fn find_delegation(&self, p: Principal) -> (r: Option<usize>)
        ensures
            match r {
                Some(i) => i < self.delegations@.len() && self.delegations@[i as int].delegator
                    == p,
                None => !self.has_delegation(p),
            },
    {
        let mut i: usize = 0;
        while i < self.delegations.len()
            invariant
                i <= self.delegations@.len(),
                forall|j: int| 0 <= j < i ==> self.delegations@[j].delegator != p,
            decreases self.delegations@.len() - i,
        {
            if self.delegations[i].delegator == p {
                return Some(i);
            }
            i += 1;
        }
        None
    }

    /// Whether a member other than `target` holds the Owner role.
    pub fn find_other_owner(&self, target: Principal) -> (b: bool)
        ensures
            b == self.has_other_owner(target),
    {
        let mut i: usize = 0;
        while i < self.members.len()
            invariant
                i <= self.members@.len(),
                forall|j: int|
                    0 <= j < i ==> !(self.members@[j].role == Role::Owner && self.members@[j].address
                        != target),
            decreases self.members@.len() - i,
        {
            if self.members[i].role == Role::Owner && self.members[i].address != target {
                return true;
            }
            i += 1;
        }
        false
    }
}

/// Everything of two guilds agrees except possibly the membership records.
pub open spec fn same_but_members(a: Guild, b: Guild) -> bool {
    &&& a.id == b.id
    &&& a.name == b.name
    &&& a.description == b.description
    &&& a.config == b.config
    &&& a.delegations == b.delegations
}

/// Everything agrees except possibly members and delegations.
pub open spec fn same_but_members_delegations(a: Guild, b: Guild) -> bool {
    &&& a.id == b.id
    &&& a.name == b.name
    &&& a.description == b.description
    &&& a.config == b.config
}

/// Everything of two guilds agrees except possibly the delegation edges.
pub open spec fn same_but_delegations(a: Guild, b: Guild) -> bool {
    &&& a.id == b.id
    &&& a.name == b.name
    &&& a.description == b.description
    &&& a.config == b.config
    &&& a.members == b.members
}

/// Everything of two guilds agrees except possibly the governance config.
pub open spec fn same_but_config(a: Guild, b: Guild) -> bool {
    &&& a.id == b.id
    &&& a.name == b.name
    &&& a.description == b.description
    &&& a.members == b.members
    &&& a.delegations == b.delegations
}

/// How many membership records of `s` hold the Owner role.
pub open spec fn count_owners(s: Seq<Member>) -> nat
    decreases s.len(),
{
    if s.len() == 0 {
        0
    } else {
        count_owners(s.drop_last()) + if s.last().role == Role::Owner {
            1nat
        } else {
            0nat
        }
    }
}

/// A positive owner count is the same as the existence of an owner record.
pub proof fn lemma_count_owners_pos(s: Seq<Member>)
    ensures
        count_owners(s) >= 1 <==> exists|i: int| 0 <= i < s.len() && s[i].role == Role::Owner,
    decreases s.len(),
{
    if s.len() == 0 {
    } else {
        lemma_count_owners_pos(s.drop_last());
        if s.last().role == Role::Owner {
            assert(s[s.len() - 1].role == Role::Owner);
        } else {
            if count_owners(s.drop_last()) >= 1 {
                let i = choose|i: int|
                    0 <= i < s.drop_last().len() && s.drop_last()[i].role == Role::Owner;
                assert(s[i].role == Role::Owner);
            }
            if exists|i: int| 0 <= i < s.len() && s[i].role == Role::Owner {
                let i = choose|i: int| 0 <= i < s.len() && s[i].role == Role::Owner;
                assert(i < s.len() - 1);
                assert(s.drop_last()[i].role == Role::Owner);
            }
        }
    }
}

/// All existing guilds, with dense monotonically assigned ids.
pub struct GuildRegistry {
    pub guilds: Vec<Guild>,
}

impl GuildRegistry {
    /// Every guild is well-formed and guild ids are dense: guild `id` lives
    /// at index `id - 1`.
    pub open spec fn wf(self) -> bool {
        forall|i: int|
            0 <= i < self.guilds@.len() ==> (#[trigger] self.guilds@[i]).wf() && self.guilds@[i].id
                == i + 1
    }

    pub open spec fn has_guild(self, id: u64) -> bool {
        1 <= id <= self.guilds@.len()
    }

    pub open spec fn guild_at(self, id: u64) -> Guild {
        self.guilds@[id - 1]
    }

    /// All guilds agree with `other` except possibly the one with `id`.
    pub open spec fn same_but_guild(self, other: GuildRegistry, id: u64) -> bool {
        &&& self.guilds@.len() == other.guilds@.len()
        &&& forall|i: int|
            0 <= i < self.guilds@.len() && i != id - 1 ==> self.guilds@[i] == other.guilds@[i]
    }

    pub open spec fn spec_is_member(self, id: u64, p: Principal) -> bool {
        self.has_guild(id) && self.guild_at(id).has_member(p)
    }

    pub open spec fn spec_has_permission(self, id: u64, p: Principal, required: Role) -> bool {
        self.has_guild(id) && self.guild_at(id).spec_has_permission(p, required)
    }

    /// Fresh registry with no guilds.
    pub fn new() -> (r: GuildRegistry)
        ensures
            r.wf(),
            r.guilds@.len() == 0,
    {
        GuildRegistry { guilds: Vec::new() }
    }

    /// Look up a guild by id.
    pub fn guild_ref(&self, id: u64) -> (r: Result<&Guild, Error>)
        requires
            self.wf(),
        ensures
            match r {
                Ok(g) => self.has_guild(id) && *g == self.guild_at(id) && g.wf(),
                Err(e) => e == Error::NotFound && !self.has_guild(id),
            },
    {
        if id >= 1 && id <= self.guilds.len() as u64 {
            Ok(&self.guilds[(id - 1) as usize])
        } else {
            Err(Error::NotFound)
        }
    }

    /// Create a guild owned by `owner`, who becomes its first member with the
    /// Owner role. The name must be 1 to 64 characters and the description at
    /// most 512; ids are allocated densely starting from 1.
    pub fn create_guild(&mut self, name: String, description: String, owner: Principal, now: u64)
        -> (r: Result<u64, Error>)
        requires
            old(self).wf(),
            old(self).guilds@.len() < usize::MAX,
        ensures
            final(self).wf(),
            match r {
                Ok(id) => {
                    &&& 1 <= name@.len() <= 64
                    &&& description@.len() <= 512
                    &&& id == old(self).guilds@.len() + 1
                    &&& final(self).guilds@.len() == old(self).guilds@.len() + 1
                    &&& forall|i: int|
                        0 <= i < old(self).guilds@.len() ==> final(self).guilds@[i] == old(self).guilds@[i]
                    &&& final(self).guilds@.last().id == id
                    &&& final(self).guilds@.last().name@ == name@
                    &&& final(self).guilds@.last().description@ == description@
                    &&& final(self).guilds@.last().members@ == seq![
                        Member { address: owner, role: Role::Owner, joined_at: now },
                    ]
                    &&& final(self).guilds@.last().delegations@.len() == 0
                    &&& final(self).guilds@.last().config == GovernanceConfig::spec_default()
                },
                Err(e) => {
                    &&& *final(self) == *old(self)
                    &&& e == Error::InvalidInput
                    &&& !(1 <= name@.len() <= 64 && description@.len() <= 512)
                },
            },
    {
        let name_len = name.as_str().unicode_len();
        let desc_len = description.as_str().unicode_len();
        if name_len < 1 || name_len > 64 || desc_len > 512 {
            return Err(Error::InvalidInput);
        }
        let id = (self.guilds.len() + 1) as u64;
        let mut members: Vec<Member> = Vec::new();
        members.push(Member { address: owner, role: Role::Owner, joined_at: now });
        let guild = Guild {
            id,
            name,
            description,
            members,
            delegations: Vec::new(),
            config: GovernanceConfig::default(),
        };
        self.guilds.push(guild);
        proof {
            assert(self.guilds@.last().members@[0].role == Role::Owner);
            assert(self.guilds@.last().has_owner());
            assert forall|i: int| 0 <= i < self.guilds@.len() implies (
            #[trigger] self.guilds@[i]).wf() && self.guilds@[i].id == i + 1 by {
                if i < self.guilds@.len() - 1 {
                    assert(self.guilds@[i] == old(self).guilds@[i]);
                }
            };
        }
        Ok(id)
    }

    /// Caller may add a member with `role`: caller needs at least Admin, and
    /// only an Owner may assign the Owner role.
    pub open spec fn can_add(g: Guild, caller: Principal, role: Role) -> bool {
        &&& g.spec_has_permission(caller, Role::Admin)
        &&& (role == Role::Owner ==> g.role_of(caller) == Role::Owner)
    }

    /// Add `address` to the guild with `role`, on behalf of `caller`.
    pub fn add_member(
        &mut self,
        guild_id: u64,
        address: Principal,
        role: Role,
        caller: Principal,
        now: u64,
    ) -> (r: Result<bool, Error>)
        requires
            old(self).wf(),
        ensures
            final(self).wf(),
            match r {
                Ok(b) => {
                    &&& b
                    &&& old(self).has_guild(guild_id)
                    &&& GuildRegistry::can_add(old(self).guild_at(guild_id), caller, role)
                    &&& !old(self).guild_at(guild_id).has_member(address)
                    &&& final(self).same_but_guild(*old(self), guild_id)
                    &&& same_but_members(final(self).guild_at(guild_id), old(self).guild_at(guild_id))
                    &&& final(self).guild_at(guild_id).members@ == old(self).guild_at(
                        guild_id,
                    ).members@.push(Member { address, role, joined_at: now })
                },
                Err(e) => {
                    &&& *final(self) == *old(self)
                    &&& match e {
                        Error::NotFound => !old(self).has_guild(guild_id),
                        Error::Unauthorized => old(self).has_guild(guild_id)
                            && !GuildRegistry::can_add(old(self).guild_at(guild_id), caller, role),
                        Error::DuplicateState => old(self).has_guild(guild_id)
                            && GuildRegistry::can_add(old(self).guild_at(guild_id), caller, role)
                            && old(self).guild_at(guild_id).has_member(address),
                        _ => false,
                    }
                },
            },
    {
        if !(guild_id >= 1 && guild_id <= self.guilds.len() as u64) {
            return Err(Error::NotFound);
        }
        let idx = (guild_id - 1) as usize;
        let ghost g0 = self.guilds@[idx as int];
        let authorized = {
            let g = &self.guilds[idx];
            match g.find_member(caller) {
                Some(ci) => {
                    proof {
                        g.lemma_member_idx(caller, ci as int);
                    }
                    let caller_role = g.members[ci].role;
                    caller_role.dominates(Role::Admin) && (!(role == Role::Owner) || caller_role
                        == Role::Owner)
                },
                None => false,
            }
        };
        if !authorized {
            return Err(Error::Unauthorized);
        }
        if self.guilds[idx].find_member(address).is_some() {
            return Err(Error::DuplicateState);
        }
        let g = &mut self.guilds[idx];
        g.members.push(Member { address, role, joined_at: now });
        proof {
            let gnew = self.guilds@[idx as int];
            assert(gnew.members@ == g0.members@.push(Member { address, role, joined_at: now }));
            assert forall|i: int, j: int|
                0 <= i < j < gnew.members@.len() implies gnew.members@[i].address
                != gnew.members@[j].address by {
                if j < gnew.members@.len() - 1 {
                    assert(g0.members@[i].address != g0.members@[j].address);
                } else {
                    assert(gnew.members@[j].address == address);
                    assert(gnew.members@[i] == g0.members@[i]);
                }
            };
            let k = choose|k: int| 0 <= k < g0.members@.len() && g0.members@[k].role == Role::Owner;
            assert(gnew.members@[k].role == Role::Owner);
            assert(gnew.has_owner());
            assert(gnew.wf());
            assert forall|i: int| 0 <= i < self.guilds@.len() implies (
            #[trigger] self.guilds@[i]).wf() && self.guilds@[i].id == i + 1 by {
                if i != idx {
                    assert(self.guilds@[i] == old(self).guilds@[i]);
                }
            };
        }
        Ok(true)
    }

    /// Caller may remove `target`'s record: self-removal, or an Admin-or-above
    /// whose role strictly dominates the target's.
    pub open spec fn can_remove(g: Guild, target: Member, caller: Principal) -> bool {
        ||| caller == target.address
        ||| (g.spec_has_permission(caller, Role::Admin) && spec_rank(g.role_of(caller)) > spec_rank(
            target.role,
        ))
    }

    /// Remove `address` from the guild, along with any delegation edge it
    /// holds as delegator. Removing the last Owner is refused.
    pub fn remove_member(&mut self, guild_id: u64, address: Principal, caller: Principal) -> (r:
        Result<bool, Error>)
        requires
            old(self).wf(),
        ensures
            final(self).wf(),
            match r {
                Ok(b) => {
                    &&& b
                    &&& old(self).has_guild(guild_id)
                    &&& old(self).guild_at(guild_id).has_member(address)
                    &&& GuildRegistry::can_remove(
                        old(self).guild_at(guild_id),
                        old(self).guild_at(guild_id).member_at(address),
                        caller,
                    )
                    &&& final(self).same_but_guild(*old(self), guild_id)
                    &&& same_but_members_delegations(
                        final(self).guild_at(guild_id),
                        old(self).guild_at(guild_id),
                    )
                    &&& final(self).guild_at(guild_id).members@ == old(self).guild_at(
                        guild_id,
                    ).members@.remove(old(self).guild_at(guild_id).member_idx(address))
                    &&& !final(self).guild_at(guild_id).has_member(address)
                    &&& final(self).guild_at(guild_id).delegations@ == (if old(self).guild_at(
                        guild_id,
                    ).has_delegation(address) {
                        old(self).guild_at(guild_id).delegations@.remove(
                            old(self).guild_at(guild_id).delegation_idx(address),
                        )
                    } else {
                        old(self).guild_at(guild_id).delegations@
                    })
                },
                Err(e) => {
                    &&& *final(self) == *old(self)
                    &&& match e {
                        Error::NotFound => !old(self).has_guild(guild_id) || !old(self).guild_at(
                            guild_id,
                        ).has_member(address),
                        Error::Unauthorized => old(self).has_guild(guild_id) && old(self).guild_at(
                            guild_id,
                        ).has_member(address) && !GuildRegistry::can_remove(
                            old(self).guild_at(guild_id),
                            old(self).guild_at(guild_id).member_at(address),
                            caller,
                        ),
                        Error::InvariantViolation => old(self).has_guild(guild_id) && old(
                            self,
                        ).guild_at(guild_id).has_member(address) && old(self).guild_at(
                            guild_id,
                        ).member_at(address).role == Role::Owner && !old(self).guild_at(
                            guild_id,
                        ).has_other_owner(address),
                        _ => false,
                    }
                },
            },
    {
        if !(guild_id >= 1 && guild_id <= self.guilds.len() as u64) {
            return Err(Error::NotFound);
        }
        let idx = (guild_id - 1) as usize;
        let ghost g0 = self.guilds@[idx as int];
        let target_i = match self.guilds[idx].find_member(address) {
            Some(i) => i,
            None => {
                return Err(Error::NotFound);
            },
        };
        proof {
            g0.lemma_member_idx(address, target_i as int);
        }
        let target_role = self.guilds[idx].members[target_i].role;
        let authorized = if caller == address {
            true
        } else {
            let g = &self.guilds[idx];
            match g.find_member(caller) {
                Some(ci) => {
                    proof {
                        g.lemma_member_idx(caller, ci as int);
                    }
                    let caller_role = g.members[ci].role;
                    caller_role.dominates(Role::Admin) && caller_role.rank() > target_role.rank()
                },
                None => false,
            }
        };
        if !authorized {
            return Err(Error::Unauthorized);
        }
        if matches!(target_role, Role::Owner) {
            if !self.guilds[idx].find_other_owner(address) {
                return Err(Error::InvariantViolation);
            }
        }
        let g = &mut self.guilds[idx];
        g.members.remove(target_i);
        let del_idx = g.find_delegation(address);
        let ghost dels_mid = g.delegations@;
        match del_idx {
            Some(di) => {
                proof {
                    g0.lemma_delegation_idx(address, di as int);
                }
                g.delegations.remove(di);
            },
            None => {},
        }
        proof {
            let gnew = self.guilds@[idx as int];
            let ti = target_i as int;
            assert(gnew.members@ == g0.members@.remove(ti));
            // distinctness of the shrunk member list
            assert forall|i: int, j: int|
                0 <= i < j < gnew.members@.len() implies gnew.members@[i].address
                != gnew.members@[j].address by {
                let i0 = if i < ti {
                    i
                } else {
                    i + 1
                };
                let j0 = if j < ti {
                    j
                } else {
                    j + 1
                };
                assert(gnew.members@[i] == g0.members@[i0]);
                assert(gnew.members@[j] == g0.members@[j0]);
                assert(g0.members@[i0].address != g0.members@[j0].address);
            };
            // the removed address is gone
            assert forall|i: int| 0 <= i < gnew.members@.len() implies gnew.members@[i].address
                != address by {
                let i0 = if i < ti {
                    i
                } else {
                    i + 1
                };
                assert(gnew.members@[i] == g0.members@[i0]);
                if i0 != ti {
                    g0.lemma_member_idx(address, ti);
                    if g0.members@[i0].address == address {
                        g0.lemma_member_idx(address, i0);
                    }
                }
            };
            assert(!gnew.has_member(address));
            // an owner survives
            if g0.members@[ti].role == Role::Owner {
                let k = choose|k: int|
                    0 <= k < g0.members@.len() && g0.members@[k].role == Role::Owner
                        && g0.members@[k].address != address;
                let k2 = if k < ti {
                    k
                } else {
                    k - 1
                };
                assert(k != ti);
                assert(gnew.members@[k2] == g0.members@[k]);
                assert(gnew.has_owner());
            } else {
                let k = choose|k: int|
                    0 <= k < g0.members@.len() && g0.members@[k].role == Role::Owner;
                assert(k != ti);
                let k2 = if k < ti {
                    k
                } else {
                    k - 1
                };
                assert(gnew.members@[k2] == g0.members@[k]);
                assert(gnew.has_owner());
            }
            // delegations stay well-formed
            match del_idx {
                Some(di) => {
                    let d = di as int;
                    assert(gnew.delegations@ == g0.delegations@.remove(d));
                    assert forall|i: int, j: int|
                        0 <= i < j < gnew.delegations@.len() implies gnew.delegations@[i].delegator
                        != gnew.delegations@[j].delegator by {
                        let i0 = if i < d {
                            i
                        } else {
                            i + 1
                        };
                        let j0 = if j < d {
                            j
                        } else {
                            j + 1
                        };
                        assert(gnew.delegations@[i] == g0.delegations@[i0]);
                        assert(gnew.delegations@[j] == g0.delegations@[j0]);
                    };
                    assert forall|i: int|
                        0 <= i < gnew.delegations@.len() implies gnew.delegations@[i].delegator
                        != gnew.delegations@[i].delegate by {
                        let i0 = if i < d {
                            i
                        } else {
                            i + 1
                        };
                        assert(gnew.delegations@[i] == g0.delegations@[i0]);
                    };
                },
                None => {
                    assert(gnew.delegations@ == g0.delegations@);
                },
            }
            assert(gnew.wf());
            assert forall|i: int| 0 <= i < self.guilds@.len() implies (
            #[trigger] self.guilds@[i]).wf() && self.guilds@[i].id == i + 1 by {
                if i != idx {
                    assert(self.guilds@[i] == old(self).guilds@[i]);
                }
            };
        }
        Ok(true)
    }

    /// Caller may set `target`'s role to `new_role`: at least Admin, and only
    /// an Owner may assign the Owner role.
    pub open spec fn can_update(g: Guild, caller: Principal, new_role: Role) -> bool {
        &&& g.spec_has_permission(caller, Role::Admin)
        &&& (new_role == Role::Owner ==> g.role_of(caller) == Role::Owner)
    }

    /// Change the role of `address`; demoting the last Owner is refused.
    pub fn update_role(
        &mut self,
        guild_id: u64,
        address: Principal,
        new_role: Role,
        caller: Principal,
    ) -> (r: Result<bool, Error>)
        requires
            old(self).wf(),
        ensures
            final(self).wf(),
            match r {
                Ok(b) => {
                    &&& b
                    &&& old(self).has_guild(guild_id)
                    &&& old(self).guild_at(guild_id).has_member(address)
                    &&& GuildRegistry::can_update(old(self).guild_at(guild_id), caller, new_role)
                    &&& final(self).same_but_guild(*old(self), guild_id)
                    &&& same_but_members(final(self).guild_at(guild_id), old(self).guild_at(guild_id))
                    &&& final(self).guild_at(guild_id).members@ == old(self).guild_at(
                        guild_id,
                    ).members@.update(
                        old(self).guild_at(guild_id).member_idx(address),
                        Member {
                            role: new_role,
                            ..old(self).guild_at(guild_id).member_at(address)
                        },
                    )
                    &&& final(self).guild_at(guild_id).role_of(address) == new_role
                },
                Err(e) => {
                    &&& *final(self) == *old(self)
                    &&& match e {
                        Error::NotFound => !old(self).has_guild(guild_id) || !old(self).guild_at(
                            guild_id,
                        ).has_member(address),
                        Error::Unauthorized => old(self).has_guild(guild_id) && old(self).guild_at(
                            guild_id,
                        ).has_member(address) && !GuildRegistry::can_update(
                            old(self).guild_at(guild_id),
                            caller,
                            new_role,
                        ),
                        Error::InvariantViolation => old(self).has_guild(guild_id) && old(
                            self,
                        ).guild_at(guild_id).has_member(address) && GuildRegistry::can_update(
                            old(self).guild_at(guild_id),
                            caller,
                            new_role,
                        ) && old(self).guild_at(guild_id).member_at(address).role == Role::Owner
                            && !(new_role == Role::Owner) && !old(self).guild_at(
                            guild_id,
                        ).has_other_owner(address),
                        _ => false,
                    }
                },
            },
    {
        if !(guild_id >= 1 && guild_id <= self.guilds.len() as u64) {
            return Err(Error::NotFound);
        }
        let idx = (guild_id - 1) as usize;
        let ghost g0 = self.guilds@[idx as int];
        let target_i = match self.guilds[idx].find_member(address) {
            Some(i) => i,
            None => {
                return Err(Error::NotFound);
            },
        };
        proof {
            g0.lemma_member_idx(address, target_i as int);
        }
        let authorized = {
            let g = &self.guilds[idx];
            match g.find_member(caller) {
                Some(ci) => {
                    proof {
                        g.lemma_member_idx(caller, ci as int);
                    }
                    let caller_role = g.members[ci].role;
                    caller_role.dominates(Role::Admin) && (!(new_role == Role::Owner) || caller_role
                        == Role::Owner)
                },
                None => false,
            }
        };
        if !authorized {
            return Err(Error::Unauthorized);
        }
        let target_role = self.guilds[idx].members[target_i].role;
        if matches!(target_role, Role::Owner) && !matches!(new_role, Role::Owner) {
            if !self.guilds[idx].find_other_owner(address) {
                return Err(Error::InvariantViolation);
            }
        }
        let g = &mut self.guilds[idx];
        let joined_at = g.members[target_i].joined_at;
        let updated = Member { address, role: new_role, joined_at };
        let slot = &mut g.members[target_i];
        *slot = updated;
        proof {
            let gnew = self.guilds@[idx as int];
            let ti = target_i as int;
            assert(gnew.members@ == g0.members@.update(ti, updated));
            assert forall|i: int, j: int|
                0 <= i < j < gnew.members@.len() implies gnew.members@[i].address
                != gnew.members@[j].address by {
                assert(gnew.members@[i].address == g0.members@[i].address);
                assert(gnew.members@[j].address == g0.members@[j].address);
            };
            if new_role == Role::Owner {
                assert(gnew.members@[ti].role == Role::Owner);
                assert(gnew.has_owner());
            } else if g0.members@[ti].role == Role::Owner {
                let k = choose|k: int|
                    0 <= k < g0.members@.len() && g0.members@[k].role == Role::Owner
                        && g0.members@[k].address != address;
                assert(k != ti);
                assert(gnew.members@[k] == g0.members@[k]);
                assert(gnew.has_owner());
            } else {
                let k = choose|k: int|
                    0 <= k < g0.members@.len() && g0.members@[k].role == Role::Owner;
                assert(k != ti);
                assert(gnew.members@[k] == g0.members@[k]);
                assert(gnew.has_owner());
            }
            assert(gnew.wf());
            gnew.lemma_member_idx(address, ti);
            assert(gnew.role_of(address) == new_role);
            assert forall|i: int| 0 <= i < self.guilds@.len() implies (
            #[trigger] self.guilds@[i]).wf() && self.guilds@[i].id == i + 1 by {
                if i != idx {
                    assert(self.guilds@[i] == old(self).guilds@[i]);
                }
            };
        }
        Ok(true)
    }

    /// Membership record of `address`, if any.
    pub fn get_member(&self, guild_id: u64, address: Principal) -> (r: Result<Member, Error>)
        requires
            self.wf(),
        ensures
            match r {
                Ok(m) => self.spec_is_member(guild_id, address) && m == self.guild_at(
                    guild_id,
                ).member_at(address),
                Err(e) => e == Error::NotFound && !self.spec_is_member(guild_id, address),
            },
    {
        let g = self.guild_ref(guild_id)?;
        match g.find_member(address) {
            Some(i) => {
                proof {
                    g.lemma_member_idx(address, i as int);
                }
                Ok(g.members[i])
            },
            None => Err(Error::NotFound),
        }
    }

    /// All membership records of the guild; empty when the guild is unknown.
    pub fn get_all_members(&self, guild_id: u64) -> (r: Vec<Member>)
        requires
            self.wf(),
        ensures
            self.has_guild(guild_id) ==> r@ == self.guild_at(guild_id).members@,
            !self.has_guild(guild_id) ==> r@.len() == 0,
    {
        let mut out: Vec<Member> = Vec::new();
        if !(guild_id >= 1 && guild_id <= self.guilds.len() as u64) {
            return out;
        }
        let g = &self.guilds[(guild_id - 1) as usize];
        let mut i: usize = 0;
        while i < g.members.len()
            invariant
                i <= g.members@.len(),
                out@ == g.members@.take(i as int),
            decreases g.members@.len() - i,
        {
            out.push(g.members[i]);
            proof {
                assert(out@ == g.members@.take(i + 1));
            }
            i += 1;
        }
        proof {
            assert(g.members@.take(g.members@.len() as int) == g.members@);
        }
        out
    }

    /// Whether `address` belongs to the guild.
    pub fn is_member(&self, guild_id: u64, address: Principal) -> (b: bool)
        requires
            self.wf(),
        ensures
            b == self.spec_is_member(guild_id, address),
    {
        if !(guild_id >= 1 && guild_id <= self.guilds.len() as u64) {
            return false;
        }
        self.guilds[(guild_id - 1) as usize].find_member(address).is_some()
    }

    /// Whether `address` belongs to the guild with a role dominating
    /// `required`.
    pub fn has_permission(&self, guild_id: u64, address: Principal, required: Role) -> (b: bool)
        requires
            self.wf(),
        ensures
            b == self.spec_has_permission(guild_id, address, required),
    {
        if !(guild_id >= 1 && guild_id <= self.guilds.len() as u64) {
            return false;
        }
        let g = &self.guilds[(guild_id - 1) as usize];
        match g.find_member(address) {
            Some(i) => {
                proof {
                    g.lemma_member_idx(address, i as int);
                }
                g.members[i].role.dominates(required)
            },
            None => false,
        }
    }

    /// Number of members holding the Owner role; 0 for an unknown guild.
    pub fn owner_count(&self, guild_id: u64) -> (n: u64)
        requires
            self.wf(),
        ensures
            self.has_guild(guild_id) ==> n == count_owners(self.guild_at(guild_id).members@),
            !self.has_guild(guild_id) ==> n == 0,
            self.has_guild(guild_id) ==> n >= 1,
    {
        if !(guild_id >= 1 && guild_id <= self.guilds.len() as u64) {
            return 0;
        }
        let g = &self.guilds[(guild_id - 1) as usize];
        let mut n: u64 = 0;
        let mut i: usize = 0;
        while i < g.members.len()
            invariant
                i <= g.members@.len(),
                n == count_owners(g.members@.take(i as int)),
                n <= i,
            decreases g.members@.len() - i,
        {
            proof {
                assert(g.members@.take(i + 1).drop_last() == g.members@.take(i as int));
                assert(g.members@.take(i + 1).last() == g.members@[i as int]);
            }
            if matches!(g.members[i].role, Role::Owner) {
                n += 1;
            }
            i += 1;
        }
        proof {
            assert(g.members@.take(g.members@.len() as int) == g.members@);
            lemma_count_owners_pos(g.members@);
        }
        n
    }

    /// Apply an add-member decision that a passed proposal carries: no
    /// caller authorization, but duplicates are still refused.
    pub(crate) fn apply_add_member(
        &mut self,
        guild_id: u64,
        address: Principal,
        role: Role,
        now: u64,
    ) -> (ok: bool)
        requires
            old(self).wf(),
        ensures
            final(self).wf(),
            ok == (old(self).has_guild(guild_id) && !old(self).guild_at(guild_id).has_member(
                address,
            )),
            ok ==> {
                &&& final(self).same_but_guild(*old(self), guild_id)
                &&& same_but_members(final(self).guild_at(guild_id), old(self).guild_at(guild_id))
                &&& final(self).guild_at(guild_id).members@ == old(self).guild_at(
                    guild_id,
                ).members@.push(Member { address, role, joined_at: now })
            },
            !ok ==> *final(self) == *old(self),
    {
        if !(guild_id >= 1 && guild_id <= self.guilds.len() as u64) {
            return false;
        }
        let idx = (guild_id - 1) as usize;
        let ghost g0 = self.guilds@[idx as int];
        if self.guilds[idx].find_member(address).is_some() {
            return false;
        }
        let g = &mut self.guilds[idx];
        g.members.push(Member { address, role, joined_at: now });
        proof {
            let gnew = self.guilds@[idx as int];
            assert(gnew.members@ == g0.members@.push(Member { address, role, joined_at: now }));
            assert forall|i: int, j: int|
                0 <= i < j < gnew.members@.len() implies gnew.members@[i].address
                != gnew.members@[j].address by {
                if j < gnew.members@.len() - 1 {
                    assert(g0.members@[i].address != g0.members@[j].address);
                } else {
                    assert(gnew.members@[j].address == address);
                    assert(gnew.members@[i] == g0.members@[i]);
                }
            };
            let k = choose|k: int| 0 <= k < g0.members@.len() && g0.members@[k].role == Role::Owner;
            assert(gnew.members@[k].role == Role::Owner);
            assert(gnew.has_owner());
            assert(gnew.wf());
            assert forall|i: int| 0 <= i < self.guilds@.len() implies (
            #[trigger] self.guilds@[i]).wf() && self.guilds@[i].id == i + 1 by {
                if i != idx {
                    assert(self.guilds@[i] == old(self).guilds@[i]);
                }
            };
        }
        true
    }

    /// Apply a remove-member decision that a passed proposal carries: no
    /// caller authorization, but the last Owner still cannot be removed.
    /// Any delegation edge of the removed member is dropped with it.
    pub(crate) fn apply_remove_member(&mut self, guild_id: u64, address: Principal) -> (ok: bool)
        requires
            old(self).wf(),
        ensures
            final(self).wf(),
            ok == (old(self).has_guild(guild_id) && old(self).guild_at(guild_id).has_member(
                address,
            ) && !(old(self).guild_at(guild_id).member_at(address).role == Role::Owner && !old(
                self,
            ).guild_at(guild_id).has_other_owner(address))),
            ok ==> {
                &&& final(self).same_but_guild(*old(self), guild_id)
                &&& same_but_members_delegations(
                    final(self).guild_at(guild_id),
                    old(self).guild_at(guild_id),
                )
                &&& final(self).guild_at(guild_id).members@ == old(self).guild_at(
                    guild_id,
                ).members@.remove(old(self).guild_at(guild_id).member_idx(address))
                &&& !final(self).guild_at(guild_id).has_member(address)
                &&& final(self).guild_at(guild_id).delegations@ == (if old(self).guild_at(
                    guild_id,
                ).has_delegation(address) {
                    old(self).guild_at(guild_id).delegations@.remove(
                        old(self).guild_at(guild_id).delegation_idx(address),
                    )
                } else {
                    old(self).guild_at(guild_id).delegations@
                })
            },
            !ok ==> *final(self) == *old(self),
    {
        if !(guild_id >= 1 && guild_id <= self.guilds.len() as u64) {
            return false;
        }
        let idx = (guild_id - 1) as usize;
        let ghost g0 = self.guilds@[idx as int];
        let target_i = match self.guilds[idx].find_member(address) {
            Some(i) => i,
            None => {
                return false;
            },
        };
        proof {
            g0.lemma_member_idx(address, target_i as int);
        }
        let target_role = self.guilds[idx].members[target_i].role;
        if matches!(target_role, Role::Owner) {
            if !self.guilds[idx].find_other_owner(address) {
                return false;
            }
        }
        let g = &mut self.guilds[idx];
        g.members.remove(target_i);
        let del_idx = g.find_delegation(address);
        match del_idx {
            Some(di) => {
                proof {
                    g0.lemma_delegation_idx(address, di as int);
                }
                g.delegations.remove(di);
            },
            None => {},
        }
        proof {
            let gnew = self.guilds@[idx as int];
            let ti = target_i as int;
            assert(gnew.members@ == g0.members@.remove(ti));
            assert forall|i: int, j: int|
                0 <= i < j < gnew.members@.len() implies gnew.members@[i].address
                != gnew.members@[j].address by {
                let i0 = if i < ti {
                    i
                } else {
                    i + 1
                };
                let j0 = if j < ti {
                    j
                } else {
                    j + 1
                };
                assert(gnew.members@[i] == g0.members@[i0]);
                assert(gnew.members@[j] == g0.members@[j0]);
                assert(g0.members@[i0].address != g0.members@[j0].address);
            };
            assert forall|i: int| 0 <= i < gnew.members@.len() implies gnew.members@[i].address
                != address by {
                let i0 = if i < ti {
                    i
                } else {
                    i + 1
                };
                assert(gnew.members@[i] == g0.members@[i0]);
                if i0 != ti {
                    g0.lemma_member_idx(address, ti);
                    if g0.members@[i0].address == address {
                        g0.lemma_member_idx(address, i0);
                    }
                }
            };
            assert(!gnew.has_member(address));
            if g0.members@[ti].role == Role::Owner {
                let k = choose|k: int|
                    0 <= k < g0.members@.len() && g0.members@[k].role == Role::Owner
                        && g0.members@[k].address != address;
                let k2 = if k < ti {
                    k
                } else {
                    k - 1
                };
                assert(k != ti);
                assert(gnew.members@[k2] == g0.members@[k]);
                assert(gnew.has_owner());
            } else {
                let k = choose|k: int|
                    0 <= k < g0.members@.len() && g0.members@[k].role == Role::Owner;
                assert(k != ti);
                let k2 = if k < ti {
                    k
                } else {
                    k - 1
                };
                assert(gnew.members@[k2] == g0.members@[k]);
                assert(gnew.has_owner());
            }
            match del_idx {
                Some(di) => {
                    let d = di as int;
                    assert(gnew.delegations@ == g0.delegations@.remove(d));
                    assert forall|i: int, j: int|
                        0 <= i < j < gnew.delegations@.len() implies gnew.delegations@[i].delegator
                        != gnew.delegations@[j].delegator by {
                        let i0 = if i < d {
                            i
                        } else {
                            i + 1
                        };
                        let j0 = if j < d {
                            j
                        } else {
                            j + 1
                        };
                        assert(gnew.delegations@[i] == g0.delegations@[i0]);
                        assert(gnew.delegations@[j] == g0.delegations@[j0]);
                    };
                    assert forall|i: int|
                        0 <= i < gnew.delegations@.len() implies gnew.delegations@[i].delegator
                        != gnew.delegations@[i].delegate by {
                        let i0 = if i < d {
                            i
                        } else {
                            i + 1
                        };
                        assert(gnew.delegations@[i] == g0.delegations@[i0]);
                    };
                },
                None => {
                    assert(gnew.delegations@ == g0.delegations@);
                },
            }
            assert(gnew.wf());
            assert forall|i: int| 0 <= i < self.guilds@.len() implies (
            #[trigger] self.guilds@[i]).wf() && self.guilds@[i].id == i + 1 by {
                if i != idx {
                    assert(self.guilds@[i] == old(self).guilds@[i]);
                }
            };
        }
        true
    }
}

/// Owner-alive: in a well-formed registry, every existing guild has at least
/// one member holding the Owner role. Each membership operation returns a
/// well-formed registry, so this holds after any sequence of them.
pub proof fn lemma_owner_alive(reg: GuildRegistry, guild_id: u64)
    requires
        reg.wf(),
        reg.has_guild(guild_id),
    ensures
        count_owners(reg.guild_at(guild_id).members@) >= 1,
        reg.guild_at(guild_id).has_owner(),
{
    assert(reg.guilds@[guild_id - 1].wf());
    lemma_count_owners_pos(reg.guild_at(guild_id).members@);
}

/// Monotonic ids: guild ids equal one plus their creation rank, so they
/// strictly increase and are never reused.
pub proof fn lemma_guild_ids_monotonic(reg: GuildRegistry, i: int, j: int)
    requires
        reg.wf(),
        0 <= i < j < reg.guilds@.len(),
    ensures
        reg.guilds@[i].id < reg.guilds@[j].id,
{
}

/// Role dominance: permission for a high requirement implies permission for
/// every requirement it dominates.
pub proof fn lemma_permission_dominance(reg: GuildRegistry, guild_id: u64, p: Principal, hi: Role, lo: Role)
    requires
        reg.spec_has_permission(guild_id, p, hi),
        spec_role_ge(hi, lo),
    ensures
        reg.spec_has_permission(guild_id, p, lo),
{
}

} // verus!
