//! Multi-signature engine: account registration, signer-set mutation,
//! per-operation-type policies, and the propose / sign / execute / expire
//! lifecycle with replay-protecting nonces.

use vstd::prelude::*;

use crate::{Error, Principal};
use crate::{DEFAULT_TIMEOUT, TIMEOUT_24H, TIMEOUT_48H};

verus! {

#[derive(Clone, Copy, Debug, PartialEq, Eq, Structural)]
pub enum AccountStatus {
    Active,
    Frozen,
}

#[derive(Clone, Copy, Debug, PartialEq, Eq, Structural)]
pub enum OperationStatus {
    Pending,
    Executed,
    Expired,
    Cancelled,
}

#[derive(Clone, Copy, Debug, PartialEq, Eq, Structural)]
pub enum OperationType {
    TreasuryWithdrawal,
    GovernanceUpdate,
    GuildConfigChange,
    EmergencyAction,
}

/// A registered multi-signature account: an owner, an ordered set of
/// signers, a numeric threshold, and a replay-protection nonce.
pub struct MultiSigAccount {
    pub id: u64,
    pub owner: Principal,
    pub signers: Vec<Principal>,
    pub threshold: u32,
    pub status: AccountStatus,
    pub nonce: u64,
}

/// One proposed operation on an account, carrying the signatures gathered so
/// far and a snapshot of the account nonce taken at proposal time.
pub struct MultiSigOperation {
    pub id: u64,
    pub account_id: u64,
    pub op_type: OperationType,
    pub description: String,
    pub proposer: Principal,
    pub signatures: Vec<Principal>,
    pub nonce: u64,
    pub created_at: u64,
    pub expires_at: u64,
    pub status: OperationStatus,
}

/// Per-(account, operation type) execution policy; absence means the
/// default policy.
#[derive(Clone, Copy, Debug, PartialEq, Eq, Structural)]
pub struct OperationPolicy {
    pub min_signatures: u32,
    pub require_all_signers: bool,
    pub timeout_seconds: u64,
    pub require_owner_signature: bool,
}

impl OperationPolicy {
    /// Stored policies keep their timeout inside the clamp range.
    pub open spec fn wf(self) -> bool {
        TIMEOUT_24H <= self.timeout_seconds <= TIMEOUT_48H
    }

    /// One signature, no require-all, 48h timeout, no owner signature.
    pub open spec fn spec_default() -> OperationPolicy {
        OperationPolicy {
            min_signatures: 1,
            require_all_signers: false,
            timeout_seconds: DEFAULT_TIMEOUT,
            require_owner_signature: false,
        }
    }
}

impl Default for OperationPolicy {
    fn default() -> (p: OperationPolicy)
        ensures
            p == OperationPolicy::spec_default(),
    {
        OperationPolicy {
            min_signatures: 1,
            require_all_signers: false,
            timeout_seconds: DEFAULT_TIMEOUT,
            require_owner_signature: false,
        }
    }
}

/// A recorded policy for one (account, operation type) pair.
pub struct PolicyEntry {
    pub account_id: u64,
    pub op_type: OperationType,
    pub policy: OperationPolicy,
}

/// No element of the sequence repeats.
pub open spec fn distinct_seq(s: Seq<Principal>) -> bool {
    forall|i: int, j: int| 0 <= i < j < s.len() ==> s[i] != s[j]
}

/// THRESHOLD-SAFE: a strict majority of the signers, and no more than all of
/// them.
pub open spec fn threshold_safe(t: u32, n: int) -> bool {
    n / 2 + 1 <= t as int && t as int <= n
}

impl MultiSigAccount {
    /// Distinct non-empty signer set containing the owner, with a
    /// THRESHOLD-SAFE threshold.
    pub open spec fn wf(self) -> bool {
        &&& distinct_seq(self.signers@)
        &&& self.signers@.len() >= 1
        &&& self.signers@.contains(self.owner)
        &&& threshold_safe(self.threshold, self.signers@.len() as int)
    }
}

impl MultiSigOperation {
    /// Signatures are distinct and the proposer's signature is present from
    /// the start.
    pub open spec fn wf(self) -> bool {
        &&& distinct_seq(self.signatures@)
        &&& self.signatures@.len() >= 1
    }
}

/// Signatures an operation needs before it may execute: every signer when
/// the policy requires all, else the policy minimum when one is set, else
/// the account threshold.
pub open spec fn spec_required_sigs(p: OperationPolicy, acct: MultiSigAccount) -> int {
    if p.require_all_signers {
        acct.signers@.len() as int
    } else if p.min_signatures > 0 {
        p.min_signatures as int
    } else {
        acct.threshold as int
    }
}

/// Find the index of `p` in a principal list.
pub fn index_of_principal(v: &Vec<Principal>, p: Principal) -> (r: Option<usize>)
    ensures
        match r {
            Some(i) => i < v@.len() && v@[i as int] == p,
            None => !v@.contains(p),
        },
{
    let mut i: usize = 0;
    while i < v.len()
        invariant
            i <= v@.len(),
            forall|j: int| 0 <= j < i ==> v@[j] != p,
        decreases v@.len() - i,
    {
        if v[i] == p {
            return Some(i);
        }
        i += 1;
    }
    None
}

/// Whether `p` occurs in a principal list.
pub fn contains_principal(v: &Vec<Principal>, p: Principal) -> (b: bool)
    ensures
        b == v@.contains(p),
{
    index_of_principal(v, p).is_some()
}

/// The multisig registry: accounts, operations, and recorded policies, with
/// dense monotonically assigned ids.
pub struct MultiSigRegistry {
    pub accounts: Vec<MultiSigAccount>,
    pub operations: Vec<MultiSigOperation>,
    pub policies: Vec<PolicyEntry>,
}

impl MultiSigRegistry {
    /// Accounts and operations are well-formed and dense; every operation
    /// names an existing account; policy keys are distinct and every stored
    /// policy keeps a clamped timeout.
    pub open spec fn wf(self) -> bool {
        &&& forall|i: int|
            0 <= i < self.accounts@.len() ==> (#[trigger] self.accounts@[i]).wf()
                && self.accounts@[i].id == i + 1
        &&& forall|i: int|
            0 <= i < self.operations@.len() ==> (#[trigger] self.operations@[i]).wf()
                && self.operations@[i].id == i + 1 && 1 <= self.operations@[i].account_id
                <= self.accounts@.len()
        &&& forall|i: int, j: int|
            0 <= i < j < self.policies@.len() ==> !(self.policies@[i].account_id
                == self.policies@[j].account_id && self.policies@[i].op_type
                == self.policies@[j].op_type)
        &&& forall|i: int| 0 <= i < self.policies@.len() ==> (#[trigger] self.policies@[i]).policy.wf()
    }

    pub open spec fn has_account(self, id: u64) -> bool {
        1 <= id <= self.accounts@.len()
    }

    pub open spec fn account_at(self, id: u64) -> MultiSigAccount {
        self.accounts@[id - 1]
    }

    pub open spec fn has_operation(self, id: u64) -> bool {
        1 <= id <= self.operations@.len()
    }

    pub open spec fn operation_at(self, id: u64) -> MultiSigOperation {
        self.operations@[id - 1]
    }

    pub open spec fn has_policy(self, account_id: u64, t: OperationType) -> bool {
        exists|i: int|
            0 <= i < self.policies@.len() && self.policies@[i].account_id == account_id
                && self.policies@[i].op_type == t
    }

    pub open spec fn policy_idx(self, account_id: u64, t: OperationType) -> int {
        choose|i: int|
            0 <= i < self.policies@.len() && self.policies@[i].account_id == account_id
                && self.policies@[i].op_type == t
    }

    /// The recorded policy for the pair, or the default when none exists.
    pub open spec fn spec_policy(self, account_id: u64, t: OperationType) -> OperationPolicy {
        if self.has_policy(account_id, t) {
            self.policies@[self.policy_idx(account_id, t)].policy
        } else {
            OperationPolicy::spec_default()
        }
    }

    /// Accounts agree with `other` except possibly the one with `id`;
    /// operations and policies agree.
    pub open spec fn same_but_account(self, other: MultiSigRegistry, id: u64) -> bool {
        &&& self.operations == other.operations
        &&& self.policies == other.policies
        &&& self.accounts@.len() == other.accounts@.len()
        &&& forall|i: int|
            0 <= i < self.accounts@.len() && i != id - 1 ==> self.accounts@[i] == other.accounts@[i]
    }

    /// Operations agree with `other` except possibly the one with `id`;
    /// accounts and policies agree.
    pub open spec fn same_but_operation(self, other: MultiSigRegistry, id: u64) -> bool {
        &&& self.accounts == other.accounts
        &&& self.policies == other.policies
        &&& self.operations@.len() == other.operations@.len()
        &&& forall|i: int|
            0 <= i < self.operations@.len() && i != id - 1 ==> self.operations@[i]
                == other.operations@[i]
    }

    /// With distinct keys, any matching policy index is the policy index.
    pub proof fn lemma_policy_idx(self, account_id: u64, t: OperationType, i: int)
        requires
            self.wf(),
            0 <= i < self.policies@.len(),
            self.policies@[i].account_id == account_id,
            self.policies@[i].op_type == t,
        ensures
            self.has_policy(account_id, t),
            self.policy_idx(account_id, t) == i,
    {
        assert(self.has_policy(account_id, t));
        let j = self.policy_idx(account_id, t);
        if j < i {
            assert(!(self.policies@[j].account_id == self.policies@[i].account_id
                && self.policies@[j].op_type == self.policies@[i].op_type));
        } else if i < j {
            assert(!(self.policies@[i].account_id == self.policies@[j].account_id
                && self.policies@[i].op_type == self.policies@[j].op_type));
        }
    }

    /// Fresh registry with no accounts, operations, or policies.
    pub fn new() -> (r: MultiSigRegistry)
        ensures
            r.wf(),
            r.accounts@.len() == 0,
            r.operations@.len() == 0,
            r.policies@.len() == 0,
    {
        MultiSigRegistry { accounts: Vec::new(), operations: Vec::new(), policies: Vec::new() }
    }

    /// Look up an account by id.
    pub fn ms_get_safe_account(&self, account_id: u64) -> (r: Result<&MultiSigAccount, Error>)
        requires
            self.wf(),
        ensures
            match r {
                Ok(a) => self.has_account(account_id) && *a == self.account_at(account_id),
                Err(e) => e == Error::NotFound && !self.has_account(account_id),
            },
    {
        if account_id >= 1 && account_id <= self.accounts.len() as u64 {
            Ok(&self.accounts[(account_id - 1) as usize])
        } else {
            Err(Error::NotFound)
        }
    }

    /// Look up an operation by id.
    pub fn ms_get_operation_status(&self, op_id: u64) -> (r: Result<&MultiSigOperation, Error>)
        requires
            self.wf(),
        ensures
            match r {
                Ok(o) => self.has_operation(op_id) && *o == self.operation_at(op_id),
                Err(e) => e == Error::NotFound && !self.has_operation(op_id),
            },
    {
        if op_id >= 1 && op_id <= self.operations.len() as u64 {
            Ok(&self.operations[(op_id - 1) as usize])
        } else {
            Err(Error::NotFound)
        }
    }

    /// The signer set a freshly registered account will carry: the given
    /// signers, with the owner appended when absent.
    pub open spec fn spec_effective_signers(signers: Seq<Principal>, owner: Principal) -> Seq<
        Principal,
    > {
        if signers.contains(owner) {
            signers
        } else {
            signers.push(owner)
        }
    }

    /// Register an account. The owner is added to the signers when missing;
    /// the signer set must be free of duplicates and the threshold
    /// THRESHOLD-SAFE for it. Ids are allocated densely from 1 and the nonce
    /// starts at 0.
    pub fn ms_register_account(&mut self, owner: Principal, signers: Vec<Principal>, threshold: u32)
        -> (r: Result<u64, Error>)
        requires
            old(self).wf(),
            old(self).accounts@.len() < usize::MAX,
        ensures
            final(self).wf(),
            match r {
                Ok(id) => {
                    &&& id == old(self).accounts@.len() + 1
                    &&& distinct_seq(
                        MultiSigRegistry::spec_effective_signers(signers@, owner),
                    )
                    &&& threshold_safe(
                        threshold,
                        MultiSigRegistry::spec_effective_signers(signers@, owner).len() as int,
                    )
                    &&& final(self).operations == old(self).operations
                    &&& final(self).policies == old(self).policies
                    &&& final(self).accounts@.len() == old(self).accounts@.len() + 1
                    &&& forall|i: int|
                        0 <= i < old(self).accounts@.len() ==> final(self).accounts@[i] == old(
                            self,
                        ).accounts@[i]
                    &&& final(self).accounts@.last().id == id
                    &&& final(self).accounts@.last().owner == owner
                    &&& final(self).accounts@.last().signers@
                        == MultiSigRegistry::spec_effective_signers(signers@, owner)
                    &&& final(self).accounts@.last().threshold == threshold
                    &&& final(self).accounts@.last().status == AccountStatus::Active
                    &&& final(self).accounts@.last().nonce == 0
                },
                Err(e) => {
                    &&& *final(self) == *old(self)
                    &&& e == Error::InvalidInput
                    &&& !(distinct_seq(MultiSigRegistry::spec_effective_signers(signers@, owner))
                        && threshold_safe(
                        threshold,
                        MultiSigRegistry::spec_effective_signers(signers@, owner).len() as int,
                    ))
                },
            },
    {
        // reject duplicate signers
        let mut dup = false;
        let mut i: usize = 0;
        while i < signers.len()
            invariant
                i <= signers@.len(),
                dup ==> !distinct_seq(signers@),
                !dup ==> forall|a: int, b: int|
                    0 <= a < b < signers@.len() && a < i ==> signers@[a] != signers@[b],
            decreases signers@.len() - i,
        {
            let mut j: usize = i + 1;
            while j < signers.len()
                invariant
                    i < j <= signers@.len(),
                    dup ==> !distinct_seq(signers@),
                    !dup ==> forall|a: int, b: int|
                        0 <= a < b < signers@.len() && a < i ==> signers@[a] != signers@[b],
                    !dup ==> forall|b: int| i < b < j ==> signers@[i as int] != signers@[b],
                decreases signers@.len() - j,
            {
                if signers[i] == signers[j] {
                    dup = true;
                }
                j += 1;
            }
            i += 1;
        }
        if dup {
            proof {
                let e = MultiSigRegistry::spec_effective_signers(signers@, owner);
                let (a, b) = choose|a: int, b: int|
                    0 <= a < b < signers@.len() && signers@[a] == signers@[b];
                assert(e[a] == signers@[a] && e[b] == signers@[b]);
                assert(!distinct_seq(e));
            }
            return Err(Error::InvalidInput);
        }
        let had_owner = contains_principal(&signers, owner);
        let mut eff = signers;
        if !had_owner {
            eff.push(owner);
            proof {
                assert(eff@[eff@.len() - 1] == owner);
            }
        }
        proof {
            assert(eff@.contains(owner));
            assert(distinct_seq(eff@)) by {
                if !had_owner {
                    assert forall|a: int, b: int| 0 <= a < b < eff@.len() implies eff@[a]
                        != eff@[b] by {
                        if b < eff@.len() - 1 {
                        } else {
                            assert(eff@[b] == owner);
                            assert(eff@[a] == signers@[a]);
                        }
                    };
                }
            };
        }
        let min_safe = eff.len() / 2 + 1;
        if (threshold as usize) < min_safe || (threshold as usize) > eff.len() {
            return Err(Error::InvalidInput);
        }
        let id = (self.accounts.len() + 1) as u64;
        let account = MultiSigAccount {
            id,
            owner,
            signers: eff,
            threshold,
            status: AccountStatus::Active,
            nonce: 0,
        };
        self.accounts.push(account);
        proof {
            assert(self.accounts@.last().wf());
            assert forall|i: int| 0 <= i < self.accounts@.len() implies (
            #[trigger] self.accounts@[i]).wf() && self.accounts@[i].id == i + 1 by {
                if i < self.accounts@.len() - 1 {
                    assert(self.accounts@[i] == old(self).accounts@[i]);
                }
            };
        }
        Ok(id)
    }

    /// Set the status of the account, on behalf of its owner.
    fn set_account_status(&mut self, account_id: u64, caller: Principal, status: AccountStatus)
        -> (r: Result<(), Error>)
        requires
            old(self).wf(),
        ensures
            final(self).wf(),
            match r {
                Ok(()) => {
                    &&& old(self).has_account(account_id)
                    &&& caller == old(self).account_at(account_id).owner
                    &&& final(self).same_but_account(*old(self), account_id)
                    &&& final(self).account_at(account_id) == MultiSigAccount {
                        status,
                        ..old(self).account_at(account_id)
                    }
                },
                Err(e) => {
                    &&& *final(self) == *old(self)
                    &&& match e {
                        Error::NotFound => !old(self).has_account(account_id),
                        Error::Unauthorized => old(self).has_account(account_id) && caller != old(
                            self,
                        ).account_at(account_id).owner,
                        _ => false,
                    }
                },
            },
    {
        if !(account_id >= 1 && account_id <= self.accounts.len() as u64) {
            return Err(Error::NotFound);
        }
        let idx = (account_id - 1) as usize;
        if self.accounts[idx].owner != caller {
            return Err(Error::Unauthorized);
        }
        let a = &mut self.accounts[idx];
        a.status = status;
        proof {
            assert forall|i: int| 0 <= i < self.accounts@.len() implies (
            #[trigger] self.accounts@[i]).wf() && self.accounts@[i].id == i + 1 by {
                if i != idx {
                    assert(self.accounts@[i] == old(self).accounts@[i]);
                }
            };
        }
        Ok(())
    }

    /// Freeze the account: no new operations may be proposed on it.
    pub fn ms_freeze_account(&mut self, account_id: u64, caller: Principal) -> (r: Result<
        (),
        Error,
    >)
        requires
            old(self).wf(),
        ensures
            final(self).wf(),
            match r {
                Ok(()) => {
                    &&& old(self).has_account(account_id)
                    &&& caller == old(self).account_at(account_id).owner
                    &&& final(self).same_but_account(*old(self), account_id)
                    &&& final(self).account_at(account_id) == MultiSigAccount {
                        status: AccountStatus::Frozen,
                        ..old(self).account_at(account_id)
                    }
                },
                Err(e) => {
                    &&& *final(self) == *old(self)
                    &&& match e {
                        Error::NotFound => !old(self).has_account(account_id),
                        Error::Unauthorized => old(self).has_account(account_id) && caller != old(
                            self,
                        ).account_at(account_id).owner,
                        _ => false,
                    }
                },
            },
    {
        self.set_account_status(account_id, caller, AccountStatus::Frozen)
    }

    /// Unfreeze the account.
    pub fn ms_unfreeze_account(&mut self, account_id: u64, caller: Principal) -> (r: Result<
        (),
        Error,
    >)
        requires
            old(self).wf(),
        ensures
            final(self).wf(),
            match r {
                Ok(()) => {
                    &&& old(self).has_account(account_id)
                    &&& caller == old(self).account_at(account_id).owner
                    &&& final(self).same_but_account(*old(self), account_id)
                    &&& final(self).account_at(account_id) == MultiSigAccount {
                        status: AccountStatus::Active,
                        ..old(self).account_at(account_id)
                    }
                },
                Err(e) => {
                    &&& *final(self) == *old(self)
                    &&& match e {
                        Error::NotFound => !old(self).has_account(account_id),
                        Error::Unauthorized => old(self).has_account(account_id) && caller != old(
                            self,
                        ).account_at(account_id).owner,
                        _ => false,
                    }
                },
            },
    {
        self.set_account_status(account_id, caller, AccountStatus::Active)
    }

    /// Replace the account threshold, which must stay THRESHOLD-SAFE; bumps
    /// the nonce.
    pub fn ms_update_threshold(&mut self, account_id: u64, new_threshold: u32, caller: Principal)
        -> (r: Result<(), Error>)
        requires
            old(self).wf(),
        ensures
            final(self).wf(),
            match r {
                Ok(()) => {
                    &&& old(self).has_account(account_id)
                    &&& caller == old(self).account_at(account_id).owner
                    &&& threshold_safe(
                        new_threshold,
                        old(self).account_at(account_id).signers@.len() as int,
                    )
                    &&& old(self).account_at(account_id).nonce < u64::MAX
                    &&& final(self).same_but_account(*old(self), account_id)
                    &&& final(self).account_at(account_id) == MultiSigAccount {
                        threshold: new_threshold,
                        nonce: (old(self).account_at(account_id).nonce + 1) as u64,
                        ..old(self).account_at(account_id)
                    }
                },
                Err(e) => {
                    &&& *final(self) == *old(self)
                    &&& match e {
                        Error::NotFound => !old(self).has_account(account_id),
                        Error::Unauthorized => old(self).has_account(account_id) && caller != old(
                            self,
                        ).account_at(account_id).owner,
                        Error::InvariantViolation => old(self).has_account(account_id) && caller
                            == old(self).account_at(account_id).owner && !threshold_safe(
                            new_threshold,
                            old(self).account_at(account_id).signers@.len() as int,
                        ),
                        Error::InvalidInput => old(self).has_account(account_id) && caller == old(
                            self,
                        ).account_at(account_id).owner && threshold_safe(
                            new_threshold,
                            old(self).account_at(account_id).signers@.len() as int,
                        ) && old(self).account_at(account_id).nonce == u64::MAX,
                        _ => false,
                    }
                },
            },
    {
        if !(account_id >= 1 && account_id <= self.accounts.len() as u64) {
            return Err(Error::NotFound);
        }
        let idx = (account_id - 1) as usize;
        if self.accounts[idx].owner != caller {
            return Err(Error::Unauthorized);
        }
        let min_safe = self.accounts[idx].signers.len() / 2 + 1;
        if (new_threshold as usize) < min_safe || (new_threshold as usize)
            > self.accounts[idx].signers.len() {
            return Err(Error::InvariantViolation);
        }
        if self.accounts[idx].nonce == u64::MAX {
            return Err(Error::InvalidInput);
        }
        let a = &mut self.accounts[idx];
        a.threshold = new_threshold;
        a.nonce = a.nonce + 1;
        proof {
            assert forall|i: int| 0 <= i < self.accounts@.len() implies (
            #[trigger] self.accounts@[i]).wf() && self.accounts@[i].id == i + 1 by {
                if i != idx {
                    assert(self.accounts@[i] == old(self).accounts@[i]);
                }
            };
        }
        Ok(())
    }
    /// Add a signer, on behalf of the owner. Adding an already-present
    /// signer changes nothing; adding one that would make the current
    /// threshold fall short of a strict majority is refused.
    pub fn ms_add_signer(&mut self, account_id: u64, new_signer: Principal, caller: Principal)
        -> (r: Result<(), Error>)
        requires
            old(self).wf(),
        ensures
            final(self).wf(),
            match r {
                Ok(()) => {
                    &&& old(self).has_account(account_id)
                    &&& caller == old(self).account_at(account_id).owner
                    &&& if old(self).account_at(account_id).signers@.contains(new_signer) {
                        *final(self) == *old(self)
                    } else {
                        &&& threshold_safe(
                            old(self).account_at(account_id).threshold,
                            old(self).account_at(account_id).signers@.len() as int + 1,
                        )
                        &&& final(self).same_but_account(*old(self), account_id)
                        &&& final(self).account_at(account_id).signers@ == old(self).account_at(
                            account_id,
                        ).signers@.push(new_signer)
                        &&& final(self).account_at(account_id).owner == old(self).account_at(
                            account_id,
                        ).owner
                        &&& final(self).account_at(account_id).threshold == old(self).account_at(
                            account_id,
                        ).threshold
                        &&& final(self).account_at(account_id).status == old(self).account_at(
                            account_id,
                        ).status
                        &&& final(self).account_at(account_id).nonce == old(self).account_at(
                            account_id,
                        ).nonce
                    }
                },
                Err(e) => {
                    &&& *final(self) == *old(self)
                    &&& match e {
                        Error::NotFound => !old(self).has_account(account_id),
                        Error::Unauthorized => old(self).has_account(account_id) && caller != old(
                            self,
                        ).account_at(account_id).owner,
                        Error::InvariantViolation => old(self).has_account(account_id) && caller
                            == old(self).account_at(account_id).owner && !old(self).account_at(
                            account_id,
                        ).signers@.contains(new_signer) && !threshold_safe(
                            old(self).account_at(account_id).threshold,
                            old(self).account_at(account_id).signers@.len() as int + 1,
                        ),
                        _ => false,
                    }
                },
            },
    {
        if !(account_id >= 1 && account_id <= self.accounts.len() as u64) {
            return Err(Error::NotFound);
        }
        let idx = (account_id - 1) as usize;
        if self.accounts[idx].owner != caller {
            return Err(Error::Unauthorized);
        }
        if contains_principal(&self.accounts[idx].signers, new_signer) {
            return Ok(());
        }
        let n = self.accounts[idx].signers.len();
        let threshold = self.accounts[idx].threshold;
        let n1 = n as u128 + 1;
        let min_safe = n1 / 2 + 1;
        if (threshold as u128) < min_safe || (threshold as u128) > n1 {
            return Err(Error::InvariantViolation);
        }
        let ghost a0 = self.accounts@[idx as int];
        let a = &mut self.accounts[idx];
        a.signers.push(new_signer);
        proof {
            let anew = self.accounts@[idx as int];
            assert(anew.signers@ == a0.signers@.push(new_signer));
            assert forall|i: int, j: int| 0 <= i < j < anew.signers@.len() implies anew.signers@[i]
                != anew.signers@[j] by {
                if j < anew.signers@.len() - 1 {
                } else {
                    assert(anew.signers@[j] == new_signer);
                    assert(anew.signers@[i] == a0.signers@[i]);
                }
            };
            let k = choose|k: int| 0 <= k < a0.signers@.len() && a0.signers@[k] == a0.owner;
            assert(anew.signers@[k] == anew.owner);
            assert(anew.signers@.contains(anew.owner));
            assert(anew.wf());
            assert forall|i: int| 0 <= i < self.accounts@.len() implies (
            #[trigger] self.accounts@[i]).wf() && self.accounts@[i].id == i + 1 by {
                if i != idx {
                    assert(self.accounts@[i] == old(self).accounts@[i]);
                }
            };
        }
        Ok(())
    }

    /// Remove a signer, supplying the threshold the shrunk set will use.
    /// The owner cannot be removed; the new threshold must be THRESHOLD-SAFE
    /// for the shrunk set. Removing an absent signer changes nothing; a real
    /// removal bumps the nonce.
    pub fn ms_remove_signer(
        &mut self,
        account_id: u64,
        signer: Principal,
        caller: Principal,
        new_threshold: u32,
    ) -> (r: Result<(), Error>)
        requires
            old(self).wf(),
        ensures
            final(self).wf(),
            match r {
                Ok(()) => {
                    &&& old(self).has_account(account_id)
                    &&& caller == old(self).account_at(account_id).owner
                    &&& signer != old(self).account_at(account_id).owner
                    &&& if !old(self).account_at(account_id).signers@.contains(signer) {
                        *final(self) == *old(self)
                    } else {
                        &&& threshold_safe(
                            new_threshold,
                            old(self).account_at(account_id).signers@.len() as int - 1,
                        )
                        &&& old(self).account_at(account_id).nonce < u64::MAX
                        &&& final(self).same_but_account(*old(self), account_id)
                        &&& final(self).account_at(account_id).signers@ == old(self).account_at(
                            account_id,
                        ).signers@.remove_value(signer)
                        &&& !final(self).account_at(account_id).signers@.contains(signer)
                        &&& final(self).account_at(account_id).owner == old(self).account_at(
                            account_id,
                        ).owner
                        &&& final(self).account_at(account_id).threshold == new_threshold
                        &&& final(self).account_at(account_id).status == old(self).account_at(
                            account_id,
                        ).status
                        &&& final(self).account_at(account_id).nonce == old(self).account_at(
                            account_id,
                        ).nonce + 1
                    }
                },
                Err(e) => {
                    &&& *final(self) == *old(self)
                    &&& match e {
                        Error::NotFound => !old(self).has_account(account_id),
                        Error::Unauthorized => old(self).has_account(account_id) && (caller != old(
                            self,
                        ).account_at(account_id).owner || signer == old(self).account_at(
                            account_id,
                        ).owner),
                        Error::InvariantViolation => old(self).has_account(account_id) && caller
                            == old(self).account_at(account_id).owner && signer != old(
                            self,
                        ).account_at(account_id).owner && old(self).account_at(
                            account_id,
                        ).signers@.contains(signer) && !threshold_safe(
                            new_threshold,
                            old(self).account_at(account_id).signers@.len() as int - 1,
                        ),
                        Error::InvalidInput => old(self).has_account(account_id) && caller == old(
                            self,
                        ).account_at(account_id).owner && signer != old(self).account_at(
                            account_id,
                        ).owner && old(self).account_at(account_id).signers@.contains(signer)
                            && threshold_safe(
                            new_threshold,
                            old(self).account_at(account_id).signers@.len() as int - 1,
                        ) && old(self).account_at(account_id).nonce == u64::MAX,
                        _ => false,
                    }
                },
            },
    {
        if !(account_id >= 1 && account_id <= self.accounts.len() as u64) {
            return Err(Error::NotFound);
        }
        let idx = (account_id - 1) as usize;
        if self.accounts[idx].owner != caller || self.accounts[idx].owner == signer {
            return Err(Error::Unauthorized);
        }
        let ghost a0 = self.accounts@[idx as int];
        let si = match index_of_principal(&self.accounts[idx].signers, signer) {
            Some(i) => i,
            None => {
                return Ok(());
            },
        };
        let n = self.accounts[idx].signers.len();
        let min_safe = (n - 1) / 2 + 1;
        if (new_threshold as usize) < min_safe || (new_threshold as usize) > n - 1 {
            return Err(Error::InvariantViolation);
        }
        if self.accounts[idx].nonce == u64::MAX {
            return Err(Error::InvalidInput);
        }
        let a = &mut self.accounts[idx];
        a.signers.remove(si);
        a.threshold = new_threshold;
        a.nonce = a.nonce + 1;
        proof {
            let anew = self.accounts@[idx as int];
            let d = si as int;
            assert(a0.signers@.contains(signer));
            assert(anew.signers@ == a0.signers@.remove(d));
            assert forall|i: int, j: int| 0 <= i < j < anew.signers@.len() implies anew.signers@[i]
                != anew.signers@[j] by {
                let i0 = if i < d {
                    i
                } else {
                    i + 1
                };
                let j0 = if j < d {
                    j
                } else {
                    j + 1
                };
                assert(anew.signers@[i] == a0.signers@[i0]);
                assert(anew.signers@[j] == a0.signers@[j0]);
            };
            assert forall|i: int| 0 <= i < anew.signers@.len() implies anew.signers@[i]
                != signer by {
                let i0 = if i < d {
                    i
                } else {
                    i + 1
                };
                assert(anew.signers@[i] == a0.signers@[i0]);
            };
            assert(!anew.signers@.contains(signer));
            let k = choose|k: int| 0 <= k < a0.signers@.len() && a0.signers@[k] == a0.owner;
            assert(k != d);
            let k2 = if k < d {
                k
            } else {
                k - 1
            };
            assert(anew.signers@[k2] == a0.signers@[k]);
            assert(anew.signers@.contains(anew.owner));
            assert(anew.wf());
            assert(anew.signers@ =~= a0.signers@.remove_value(signer)) by {
                a0.lemma_remove_value_is_remove_idx(signer, d);
            };
            assert forall|i: int| 0 <= i < self.accounts@.len() implies (
            #[trigger] self.accounts@[i]).wf() && self.accounts@[i].id == i + 1 by {
                if i != idx {
                    assert(self.accounts@[i] == old(self).accounts@[i]);
                }
            };
        }
        Ok(())
    }

    /// Replace `old_signer` with `new_signer` in place. When the owner
    /// rotates out, the new signer becomes the owner. Bumps the nonce.
    pub fn ms_rotate_signer(
        &mut self,
        account_id: u64,
        old_signer: Principal,
        new_signer: Principal,
        caller: Principal,
    ) -> (r: Result<(), Error>)
        requires
            old(self).wf(),
        ensures
            final(self).wf(),
            match r {
                Ok(()) => {
                    &&& old(self).has_account(account_id)
                    &&& caller == old(self).account_at(account_id).owner
                    &&& !old(self).account_at(account_id).signers@.contains(new_signer)
                    &&& old(self).account_at(account_id).signers@.contains(old_signer)
                    &&& old(self).account_at(account_id).nonce < u64::MAX
                    &&& final(self).same_but_account(*old(self), account_id)
                    &&& final(self).account_at(account_id).signers@ == old(self).account_at(
                        account_id,
                    ).signers@.update(
                        old(self).account_at(account_id).signers@.index_of(old_signer),
                        new_signer,
                    )
                    &&& final(self).account_at(account_id).owner == (if old_signer == old(
                        self,
                    ).account_at(account_id).owner {
                        new_signer
                    } else {
                        old(self).account_at(account_id).owner
                    })
                    &&& final(self).account_at(account_id).nonce == old(self).account_at(
                        account_id,
                    ).nonce + 1
                    &&& final(self).account_at(account_id).threshold == old(self).account_at(
                        account_id,
                    ).threshold
                    &&& final(self).account_at(account_id).status == old(self).account_at(
                        account_id,
                    ).status
                },
                Err(e) => {
                    &&& *final(self) == *old(self)
                    &&& match e {
                        Error::NotFound => !old(self).has_account(account_id) || (caller == old(
                            self,
                        ).account_at(account_id).owner && !old(self).account_at(
                            account_id,
                        ).signers@.contains(new_signer) && !old(self).account_at(
                            account_id,
                        ).signers@.contains(old_signer)),
                        Error::Unauthorized => old(self).has_account(account_id) && caller != old(
                            self,
                        ).account_at(account_id).owner,
                        Error::InvalidInput => old(self).has_account(account_id) && caller == old(
                            self,
                        ).account_at(account_id).owner && (old(self).account_at(
                            account_id,
                        ).signers@.contains(new_signer) || (!old(self).account_at(
                            account_id,
                        ).signers@.contains(new_signer) && old(self).account_at(
                            account_id,
                        ).signers@.contains(old_signer) && old(self).account_at(account_id).nonce
                            == u64::MAX)),
                        _ => false,
                    }
                },
            },
    {
        if !(account_id >= 1 && account_id <= self.accounts.len() as u64) {
            return Err(Error::NotFound);
        }
        let idx = (account_id - 1) as usize;
        if self.accounts[idx].owner != caller {
            return Err(Error::Unauthorized);
        }
        if contains_principal(&self.accounts[idx].signers, new_signer) {
            return Err(Error::InvalidInput);
        }
        let ghost a0 = self.accounts@[idx as int];
        let si = match index_of_principal(&self.accounts[idx].signers, old_signer) {
            Some(i) => i,
            None => {
                return Err(Error::NotFound);
            },
        };
        if self.accounts[idx].nonce == u64::MAX {
            return Err(Error::InvalidInput);
        }
        let owner_rotates = self.accounts[idx].owner == old_signer;
        let a = &mut self.accounts[idx];
        let slot = &mut a.signers[si];
        *slot = new_signer;
        if owner_rotates {
            a.owner = new_signer;
        }
        a.nonce = a.nonce + 1;
        proof {
            let anew = self.accounts@[idx as int];
            let d = si as int;
            assert(a0.signers@[d] == old_signer);
            a0.lemma_signer_index(old_signer, d);
            assert(anew.signers@ == a0.signers@.update(d, new_signer));
            assert forall|i: int, j: int| 0 <= i < j < anew.signers@.len() implies anew.signers@[i]
                != anew.signers@[j] by {
                if i != d && j != d {
                    assert(anew.signers@[i] == a0.signers@[i]);
                    assert(anew.signers@[j] == a0.signers@[j]);
                } else if i == d {
                    assert(anew.signers@[j] == a0.signers@[j]);
                    assert(a0.signers@.contains(a0.signers@[j]));
                } else {
                    assert(anew.signers@[i] == a0.signers@[i]);
                    assert(a0.signers@.contains(a0.signers@[i]));
                }
            };
            if owner_rotates {
                assert(anew.signers@[d] == anew.owner);
                assert(anew.signers@.contains(anew.owner));
            } else {
                let k = choose|k: int| 0 <= k < a0.signers@.len() && a0.signers@[k] == a0.owner;
                assert(k != d);
                assert(anew.signers@[k] == a0.signers@[k]);
                assert(anew.signers@.contains(anew.owner));
            }
            assert(anew.wf());
            assert forall|i: int| 0 <= i < self.accounts@.len() implies (
            #[trigger] self.accounts@[i]).wf() && self.accounts@[i].id == i + 1 by {
                if i != idx {
                    assert(self.accounts@[i] == old(self).accounts@[i]);
                }
            };
        }
        Ok(())
    }
}

/// Timeout a policy records: 0 selects the default, anything else is
/// clamped to the 24h..48h range.
pub open spec fn spec_clamped_timeout(t: u64) -> u64 {
    if t == 0 {
        DEFAULT_TIMEOUT
    } else if t < TIMEOUT_24H {
        TIMEOUT_24H
    } else if t > TIMEOUT_48H {
        TIMEOUT_48H
    } else {
        t
    }
}

/// Clamp a requested timeout into the accepted range, 0 meaning the default.
pub fn clamp_timeout(t: u64) -> (r: u64)
    ensures
        r == spec_clamped_timeout(t),
        TIMEOUT_24H <= r <= TIMEOUT_48H,
{
    if t == 0 {
        DEFAULT_TIMEOUT
    } else if t < TIMEOUT_24H {
        TIMEOUT_24H
    } else if t > TIMEOUT_48H {
        TIMEOUT_48H
    } else {
        t
    }
}

impl MultiSigRegistry {
    /// The policy a well-formed registry yields is always well-formed.
    pub proof fn lemma_spec_policy_wf(self, account_id: u64, t: OperationType)
        requires
            self.wf(),
        ensures
            self.spec_policy(account_id, t).wf(),
    {
        if self.has_policy(account_id, t) {
            let i = self.policy_idx(account_id, t);
            assert(self.policies@[i].policy.wf());
        }
    }

    /// Find the recorded policy entry for the pair.
    fn find_policy(&self, account_id: u64, t: OperationType) -> (r: Option<usize>)
        ensures
            match r {
                Some(i) => i < self.policies@.len() && self.policies@[i as int].account_id
                    == account_id && self.policies@[i as int].op_type == t,
                None => !self.has_policy(account_id, t),
            },
    {
        let mut i: usize = 0;
        while i < self.policies.len()
            invariant
                i <= self.policies@.len(),
                forall|j: int|
                    0 <= j < i ==> !(self.policies@[j].account_id == account_id
                        && self.policies@[j].op_type == t),
            decreases self.policies@.len() - i,
        {
            if self.policies[i].account_id == account_id && self.policies[i].op_type == t {
                return Some(i);
            }
            i += 1;
        }
        None
    }

    /// Record `p` for the pair, replacing any previous entry.
    fn upsert_policy(&mut self, account_id: u64, t: OperationType, p: OperationPolicy)
        requires
            old(self).wf(),
            p.wf(),
            old(self).policies@.len() < usize::MAX,
        ensures
            final(self).wf(),
            final(self).accounts == old(self).accounts,
            final(self).operations == old(self).operations,
            final(self).spec_policy(account_id, t) == p,
            forall|a: u64, t2: OperationType|
                !(a == account_id && t2 == t) ==> final(self).spec_policy(a, t2) == old(
                    self,
                ).spec_policy(a, t2),
    {
        let entry = PolicyEntry { account_id, op_type: t, policy: p };
        let found = self.find_policy(account_id, t);
        match found {
            Some(k) => {
                let slot = &mut self.policies[k];
                *slot = entry;
            },
            None => {
                self.policies.push(entry);
            },
        }
        proof {
            let n0 = old(self).policies@.len() as int;
            // pairwise key distinctness is preserved
            assert forall|i: int, j: int| 0 <= i < j < self.policies@.len() implies !(
            self.policies@[i].account_id == self.policies@[j].account_id
                && self.policies@[i].op_type == self.policies@[j].op_type) by {
                match found {
                    Some(k) => {
                        if i != k && j != k {
                            assert(self.policies@[i] == old(self).policies@[i]);
                            assert(self.policies@[j] == old(self).policies@[j]);
                        } else if i == k {
                            assert(self.policies@[j] == old(self).policies@[j]);
                            assert(!(old(self).policies@[k as int].account_id
                                == old(self).policies@[j].account_id
                                && old(self).policies@[k as int].op_type
                                == old(self).policies@[j].op_type));
                        } else {
                            assert(self.policies@[i] == old(self).policies@[i]);
                            assert(!(old(self).policies@[i].account_id
                                == old(self).policies@[k as int].account_id
                                && old(self).policies@[i].op_type
                                == old(self).policies@[k as int].op_type));
                        }
                    },
                    None => {
                        if j < n0 {
                            assert(self.policies@[i] == old(self).policies@[i]);
                            assert(self.policies@[j] == old(self).policies@[j]);
                        } else {
                            assert(self.policies@[j] == entry);
                            assert(self.policies@[i] == old(self).policies@[i]);
                        }
                    },
                }
            };
            assert forall|i: int| 0 <= i < self.policies@.len() implies (
            #[trigger] self.policies@[i]).policy.wf() by {
                match found {
                    Some(k) => {
                        if i != k {
                            assert(self.policies@[i] == old(self).policies@[i]);
                        }
                    },
                    None => {
                        if i < n0 {
                            assert(self.policies@[i] == old(self).policies@[i]);
                        }
                    },
                }
            };
            assert(self.wf());
            // the written key now yields p
            let widx: int = match found {
                Some(k) => k as int,
                None => n0,
            };
            assert(self.policies@[widx] == entry);
            self.lemma_policy_idx(account_id, t, widx);
            assert(self.spec_policy(account_id, t) == p);
            // every other key is untouched
            assert forall|a: u64, t2: OperationType| !(a == account_id && t2 == t) implies
                self.spec_policy(a, t2) == old(self).spec_policy(a, t2) by {
                if old(self).has_policy(a, t2) {
                    let m = old(self).policy_idx(a, t2);
                    assert(old(self).policies@[m].account_id == a && old(self).policies@[m].op_type
                        == t2);
                    assert(m != widx || !(entry.account_id == a && entry.op_type == t2));
                    assert(m != widx) by {
                        if m == widx {
                            match found {
                                Some(k) => {
                                    assert(old(self).policies@[m].account_id == account_id
                                        && old(self).policies@[m].op_type == t);
                                },
                                None => {},
                            }
                        }
                    };
                    assert(self.policies@[m] == old(self).policies@[m]);
                    self.lemma_policy_idx(a, t2, m);
                    old(self).lemma_policy_idx(a, t2, m);
                } else {
                    assert(!self.has_policy(a, t2)) by {
                        if self.has_policy(a, t2) {
                            let m = self.policy_idx(a, t2);
                            if m == widx {
                                assert(self.policies@[m] == entry);
                            } else if m < n0 {
                                assert(self.policies@[m] == old(self).policies@[m]);
                                assert(old(self).has_policy(a, t2));
                            }
                        }
                    };
                }
            };
        }
    }

    /// Record an execution policy for (account, operation type), on behalf
    /// of the account owner. Unless the policy requires all signers, its
    /// minimum signature count must be THRESHOLD-SAFE; the timeout is
    /// clamped into 24h..48h, 0 selecting the 48h default.
    pub fn ms_set_operation_policy(
        &mut self,
        account_id: u64,
        operation_type: OperationType,
        min_signatures: u32,
        require_all_signers: bool,
        timeout_seconds: u64,
        require_owner_signature: bool,
        caller: Principal,
    ) -> (r: Result<(), Error>)
        requires
            old(self).wf(),
            old(self).policies@.len() < usize::MAX,
        ensures
            final(self).wf(),
            match r {
                Ok(()) => {
                    &&& old(self).has_account(account_id)
                    &&& caller == old(self).account_at(account_id).owner
                    &&& (require_all_signers || threshold_safe(
                        min_signatures,
                        old(self).account_at(account_id).signers@.len() as int,
                    ))
                    &&& final(self).accounts == old(self).accounts
                    &&& final(self).operations == old(self).operations
                    &&& final(self).spec_policy(account_id, operation_type) == OperationPolicy {
                        min_signatures,
                        require_all_signers,
                        timeout_seconds: spec_clamped_timeout(timeout_seconds),
                        require_owner_signature,
                    }
                    &&& forall|a: u64, t2: OperationType|
                        !(a == account_id && t2 == operation_type) ==> final(self).spec_policy(
                            a,
                            t2,
                        ) == old(self).spec_policy(a, t2)
                },
                Err(e) => {
                    &&& *final(self) == *old(self)
                    &&& match e {
                        Error::NotFound => !old(self).has_account(account_id),
                        Error::Unauthorized => old(self).has_account(account_id) && caller != old(
                            self,
                        ).account_at(account_id).owner,
                        Error::InvalidInput => old(self).has_account(account_id) && caller == old(
                            self,
                        ).account_at(account_id).owner && !require_all_signers && !threshold_safe(
                            min_signatures,
                            old(self).account_at(account_id).signers@.len() as int,
                        ),
                        _ => false,
                    }
                },
            },
    {
        if !(account_id >= 1 && account_id <= self.accounts.len() as u64) {
            return Err(Error::NotFound);
        }
        let idx = (account_id - 1) as usize;
        if self.accounts[idx].owner != caller {
            return Err(Error::Unauthorized);
        }
        if !require_all_signers {
            let n = self.accounts[idx].signers.len();
            let min_safe = n / 2 + 1;
            if (min_signatures as usize) < min_safe || (min_signatures as usize) > n {
                return Err(Error::InvalidInput);
            }
        }
        let timeout = clamp_timeout(timeout_seconds);
        let policy = OperationPolicy {
            min_signatures,
            require_all_signers,
            timeout_seconds: timeout,
            require_owner_signature,
        };
        self.upsert_policy(account_id, operation_type, policy);
        Ok(())
    }

    /// The recorded policy for the pair, or the default when none exists.
    pub fn ms_get_operation_policy(&self, account_id: u64, operation_type: OperationType) -> (r:
        OperationPolicy)
        requires
            self.wf(),
        ensures
            r == self.spec_policy(account_id, operation_type),
            r.wf(),
    {
        proof {
            self.lemma_spec_policy_wf(account_id, operation_type);
        }
        match self.find_policy(account_id, operation_type) {
            Some(i) => {
                proof {
                    self.lemma_policy_idx(account_id, operation_type, i as int);
                }
                self.policies[i].policy
            },
            None => OperationPolicy::default(),
        }
    }

    /// Reset the pair's policy to the default, on behalf of the owner.
    pub fn ms_reset_operation_policy(
        &mut self,
        account_id: u64,
        operation_type: OperationType,
        caller: Principal,
    ) -> (r: Result<(), Error>)
        requires
            old(self).wf(),
            old(self).policies@.len() < usize::MAX,
        ensures
            final(self).wf(),
            match r {
                Ok(()) => {
                    &&& old(self).has_account(account_id)
                    &&& caller == old(self).account_at(account_id).owner
                    &&& final(self).accounts == old(self).accounts
                    &&& final(self).operations == old(self).operations
                    &&& final(self).spec_policy(account_id, operation_type)
                        == OperationPolicy::spec_default()
                    &&& forall|a: u64, t2: OperationType|
                        !(a == account_id && t2 == operation_type) ==> final(self).spec_policy(
                            a,
                            t2,
                        ) == old(self).spec_policy(a, t2)
                },
                Err(e) => {
                    &&& *final(self) == *old(self)
                    &&& match e {
                        Error::NotFound => !old(self).has_account(account_id),
                        Error::Unauthorized => old(self).has_account(account_id) && caller != old(
                            self,
                        ).account_at(account_id).owner,
                        _ => false,
                    }
                },
            },
    {
        if !(account_id >= 1 && account_id <= self.accounts.len() as u64) {
            return Err(Error::NotFound);
        }
        let idx = (account_id - 1) as usize;
        if self.accounts[idx].owner != caller {
            return Err(Error::Unauthorized);
        }
        self.upsert_policy(account_id, operation_type, OperationPolicy::default());
        Ok(())
    }
}

/// An operation that the sweep touches: owned by the account, still
/// Pending, and past its expiry.
pub open spec fn spec_sweepable(op: MultiSigOperation, account_id: u64, now: u64) -> bool {
    op.account_id == account_id && op.status == OperationStatus::Pending && now > op.expires_at
}

/// What one operation looks like after a sweep at time `now`.
pub open spec fn spec_sweep_op(op: MultiSigOperation, account_id: u64, now: u64)
    -> MultiSigOperation {
    if spec_sweepable(op, account_id, now) {
        MultiSigOperation { status: OperationStatus::Expired, ..op }
    } else {
        op
    }
}

/// How many operations a sweep at time `now` expires.
pub open spec fn spec_sweep_count(ops: Seq<MultiSigOperation>, account_id: u64, now: u64) -> int
    decreases ops.len(),
{
    if ops.len() == 0 {
        0
    } else {
        spec_sweep_count(ops.drop_last(), account_id, now) + if spec_sweepable(
            ops.last(),
            account_id,
            now,
        ) {
            1int
        } else {
            0int
        }
    }
}

/// Ids of the operations of the account that are Pending and not expired at
/// `now`, in id order.
pub open spec fn spec_pending_ids(ops: Seq<MultiSigOperation>, account_id: u64, now: u64) -> Seq<
    u64,
>
    decreases ops.len(),
{
    if ops.len() == 0 {
        Seq::empty()
    } else {
        let prefix = spec_pending_ids(ops.drop_last(), account_id, now);
        if ops.last().account_id == account_id && ops.last().status == OperationStatus::Pending
            && now <= ops.last().expires_at {
            prefix.push(ops.last().id)
        } else {
            prefix
        }
    }
}

/// Ids of the accounts owned by `owner`, in id order.
pub open spec fn spec_owned_ids(accounts: Seq<MultiSigAccount>, owner: Principal) -> Seq<u64>
    decreases accounts.len(),
{
    if accounts.len() == 0 {
        Seq::empty()
    } else {
        let prefix = spec_owned_ids(accounts.drop_last(), owner);
        if accounts.last().owner == owner {
            prefix.push(accounts.last().id)
        } else {
            prefix
        }
    }
}

impl MultiSigRegistry {
    /// The account an operation belongs to.
    pub open spec fn account_of_op(self, op_id: u64) -> MultiSigAccount {
        self.account_at(self.operation_at(op_id).account_id)
    }

    /// The policy governing an operation.
    pub open spec fn policy_of_op(self, op_id: u64) -> OperationPolicy {
        self.spec_policy(self.operation_at(op_id).account_id, self.operation_at(op_id).op_type)
    }

    /// Signatures the operation needs before execution.
    pub open spec fn required_for_op(self, op_id: u64) -> int {
        spec_required_sigs(self.policy_of_op(op_id), self.account_of_op(op_id))
    }

    /// Propose an operation on an Active account by one of its signers. A
    /// fresh dense id is allocated, the account nonce is snapshotted into
    /// the operation and then incremented, the proposer signs implicitly,
    /// and the expiry follows the governing policy's timeout.
    pub fn ms_propose_operation(
        &mut self,
        account_id: u64,
        op_type: OperationType,
        description: String,
        proposer: Principal,
        now: u64,
    ) -> (r: Result<u64, Error>)
        requires
            old(self).wf(),
            old(self).operations@.len() < usize::MAX,
        ensures
            final(self).wf(),
            match r {
                Ok(id) => {
                    &&& old(self).has_account(account_id)
                    &&& old(self).account_at(account_id).signers@.contains(proposer)
                    &&& old(self).account_at(account_id).status == AccountStatus::Active
                    &&& old(self).account_at(account_id).nonce < u64::MAX
                    &&& now + old(self).spec_policy(account_id, op_type).timeout_seconds
                        <= u64::MAX
                    &&& id == old(self).operations@.len() + 1
                    &&& final(self).policies == old(self).policies
                    &&& final(self).accounts@ == old(self).accounts@.update(
                        account_id - 1,
                        MultiSigAccount {
                            nonce: (old(self).account_at(account_id).nonce + 1) as u64,
                            ..old(self).account_at(account_id)
                        },
                    )
                    &&& final(self).operations@.len() == old(self).operations@.len() + 1
                    &&& forall|i: int|
                        0 <= i < old(self).operations@.len() ==> final(self).operations@[i] == old(
                            self,
                        ).operations@[i]
                    &&& final(self).operations@.last().id == id
                    &&& final(self).operations@.last().account_id == account_id
                    &&& final(self).operations@.last().op_type == op_type
                    &&& final(self).operations@.last().description == description
                    &&& final(self).operations@.last().proposer == proposer
                    &&& final(self).operations@.last().signatures@ == seq![proposer]
                    &&& final(self).operations@.last().nonce == old(self).account_at(
                        account_id,
                    ).nonce
                    &&& final(self).operations@.last().created_at == now
                    &&& final(self).operations@.last().expires_at == now + old(self).spec_policy(
                        account_id,
                        op_type,
                    ).timeout_seconds
                    &&& final(self).operations@.last().status == OperationStatus::Pending
                },
                Err(e) => {
                    &&& *final(self) == *old(self)
                    &&& match e {
                        Error::NotFound => !old(self).has_account(account_id),
                        Error::Unauthorized => old(self).has_account(account_id) && (!old(
                            self,
                        ).account_at(account_id).signers@.contains(proposer) || old(
                            self,
                        ).account_at(account_id).status == AccountStatus::Frozen),
                        Error::InvalidInput => old(self).has_account(account_id) && old(
                            self,
                        ).account_at(account_id).signers@.contains(proposer) && old(
                            self,
                        ).account_at(account_id).status == AccountStatus::Active && (old(
                            self,
                        ).account_at(account_id).nonce == u64::MAX || now + old(self).spec_policy(
                            account_id,
                            op_type,
                        ).timeout_seconds > u64::MAX),
                        _ => false,
                    }
                },
            },
    {
        if !(account_id >= 1 && account_id <= self.accounts.len() as u64) {
            return Err(Error::NotFound);
        }
        let idx = (account_id - 1) as usize;
        if !contains_principal(&self.accounts[idx].signers, proposer) || matches!(
            self.accounts[idx].status,
            AccountStatus::Frozen,
        ) {
            return Err(Error::Unauthorized);
        }
        if self.accounts[idx].nonce == u64::MAX {
            return Err(Error::InvalidInput);
        }
        let policy = self.ms_get_operation_policy(account_id, op_type);
        let timeout = clamp_timeout(policy.timeout_seconds);
        proof {
            self.lemma_spec_policy_wf(account_id, op_type);
            assert(timeout == policy.timeout_seconds);
        }
        let expires_at = match now.checked_add(timeout) {
            Some(t) => t,
            None => {
                return Err(Error::InvalidInput);
            },
        };
        let op_id = (self.operations.len() + 1) as u64;
        let nonce = self.accounts[idx].nonce;
        let a = &mut self.accounts[idx];
        a.nonce = a.nonce + 1;
        let mut signatures: Vec<Principal> = Vec::new();
        signatures.push(proposer);
        let operation = MultiSigOperation {
            id: op_id,
            account_id,
            op_type,
            description,
            proposer,
            signatures,
            nonce,
            created_at: now,
            expires_at,
            status: OperationStatus::Pending,
        };
        self.operations.push(operation);
        proof {
            assert(self.operations@.last().wf());
            assert forall|i: int| 0 <= i < self.accounts@.len() implies (
            #[trigger] self.accounts@[i]).wf() && self.accounts@[i].id == i + 1 by {
                if i != idx {
                    assert(self.accounts@[i] == old(self).accounts@[i]);
                }
            };
            assert forall|i: int| 0 <= i < self.operations@.len() implies (
            #[trigger] self.operations@[i]).wf() && self.operations@[i].id == i + 1 && 1
                <= self.operations@[i].account_id <= self.accounts@.len() by {
                if i < self.operations@.len() - 1 {
                    assert(self.operations@[i] == old(self).operations@[i]);
                    assert(old(self).operations@[i].wf());
                }
            };
            assert(self.accounts@ =~= old(self).accounts@.update(
                account_id - 1,
                MultiSigAccount {
                    nonce: (old(self).account_at(account_id).nonce + 1) as u64,
                    ..old(self).account_at(account_id)
                },
            ));
        }
        Ok(op_id)
    }

    /// Add `signer`'s signature to a Pending, unexpired operation. An
    /// operation found to be past its expiry is persisted as Expired before
    /// the call fails. Returns the new signature count.
    pub fn ms_sign_operation(&mut self, op_id: u64, signer: Principal, now: u64) -> (r: Result<
        u64,
        Error,
    >)
        requires
            old(self).wf(),
        ensures
            final(self).wf(),
            match r {
                Ok(count) => {
                    &&& old(self).has_operation(op_id)
                    &&& old(self).operation_at(op_id).status == OperationStatus::Pending
                    &&& now <= old(self).operation_at(op_id).expires_at
                    &&& old(self).account_of_op(op_id).signers@.contains(signer)
                    &&& !old(self).operation_at(op_id).signatures@.contains(signer)
                    &&& final(self).same_but_operation(*old(self), op_id)
                    &&& final(self).operation_at(op_id).signatures@ == old(self).operation_at(
                        op_id,
                    ).signatures@.push(signer)
                    &&& final(self).operation_at(op_id).status == OperationStatus::Pending
                    &&& count == old(self).operation_at(op_id).signatures@.len() + 1
                    &&& same_op_but_signatures(
                        final(self).operation_at(op_id),
                        old(self).operation_at(op_id),
                    )
                },
                Err(e) => match e {
                    Error::NotFound => !old(self).has_operation(op_id) && *final(self) == *old(
                        self,
                    ),
                    Error::BadState => old(self).has_operation(op_id) && old(self).operation_at(
                        op_id,
                    ).status != OperationStatus::Pending && *final(self) == *old(self),
                    Error::Timeout => {
                        &&& old(self).has_operation(op_id)
                        &&& old(self).operation_at(op_id).status == OperationStatus::Pending
                        &&& now > old(self).operation_at(op_id).expires_at
                        &&& final(self).same_but_operation(*old(self), op_id)
                        &&& final(self).operation_at(op_id) == MultiSigOperation {
                            status: OperationStatus::Expired,
                            ..old(self).operation_at(op_id)
                        }
                    },
                    Error::InvalidSigner => {
                        &&& old(self).has_operation(op_id)
                        &&& old(self).operation_at(op_id).status == OperationStatus::Pending
                        &&& now <= old(self).operation_at(op_id).expires_at
                        &&& !old(self).account_of_op(op_id).signers@.contains(signer)
                        &&& *final(self) == *old(self)
                    },
                    Error::DuplicateState => {
                        &&& old(self).has_operation(op_id)
                        &&& old(self).operation_at(op_id).status == OperationStatus::Pending
                        &&& now <= old(self).operation_at(op_id).expires_at
                        &&& old(self).account_of_op(op_id).signers@.contains(signer)
                        &&& old(self).operation_at(op_id).signatures@.contains(signer)
                        &&& *final(self) == *old(self)
                    },
                    _ => false,
                },
            },
    {
        if !(op_id >= 1 && op_id <= self.operations.len() as u64) {
            return Err(Error::NotFound);
        }
        let oidx = (op_id - 1) as usize;
        proof {
            assert(self.operations@[oidx as int].wf());
        }
        let account_id = self.operations[oidx].account_id;
        let n_accounts = self.accounts.len();
        let aidx = (account_id - 1) as usize;
        proof {
            assert(account_id <= n_accounts as u64);
            assert(aidx as int == account_id - 1);
        }
        if !matches!(self.operations[oidx].status, OperationStatus::Pending) {
            return Err(Error::BadState);
        }
        if now > self.operations[oidx].expires_at {
            let o = &mut self.operations[oidx];
            o.status = OperationStatus::Expired;
            proof {
                self.lemma_ops_wf_after_field_change(*old(self), oidx as int);
            }
            return Err(Error::Timeout);
        }
        if !contains_principal(&self.accounts[aidx].signers, signer) {
            return Err(Error::InvalidSigner);
        }
        if contains_principal(&self.operations[oidx].signatures, signer) {
            return Err(Error::DuplicateState);
        }
        let ghost op0 = self.operations@[oidx as int];
        let o = &mut self.operations[oidx];
        o.signatures.push(signer);
        let count = o.signatures.len() as u64;
        proof {
            let onew = self.operations@[oidx as int];
            assert(onew.signatures@ == op0.signatures@.push(signer));
            assert forall|i: int, j: int| 0 <= i < j < onew.signatures@.len() implies
                onew.signatures@[i] != onew.signatures@[j] by {
                if j < onew.signatures@.len() - 1 {
                } else {
                    assert(onew.signatures@[j] == signer);
                    assert(onew.signatures@[i] == op0.signatures@[i]);
                }
            };
            assert(onew.wf());
            self.lemma_ops_wf_after_field_change(*old(self), oidx as int);
        }
        Ok(count)
    }

    /// After changing one operation in a way that keeps it well-formed and
    /// keeps its id and account, the registry stays well-formed.
    proof fn lemma_ops_wf_after_field_change(self, prev: MultiSigRegistry, idx: int)
        requires
            prev.wf(),
            self.accounts == prev.accounts,
            self.policies == prev.policies,
            self.operations@.len() == prev.operations@.len(),
            forall|i: int|
                0 <= i < self.operations@.len() && i != idx ==> self.operations@[i]
                    == prev.operations@[i],
            0 <= idx < self.operations@.len(),
            self.operations@[idx].wf(),
            self.operations@[idx].id == prev.operations@[idx].id,
            self.operations@[idx].account_id == prev.operations@[idx].account_id,
        ensures
            self.wf(),
    {
        assert forall|i: int| 0 <= i < self.operations@.len() implies (
        #[trigger] self.operations@[i]).wf() && self.operations@[i].id == i + 1 && 1
            <= self.operations@[i].account_id <= self.accounts@.len() by {
            if i != idx {
                assert(self.operations@[i] == prev.operations@[i]);
                assert(prev.operations@[i].wf());
            } else {
                assert(prev.operations@[idx].wf());
            }
        };
    }

    /// Execute a Pending, unexpired operation that has gathered enough
    /// signatures under the governing policy. An operation found past its
    /// expiry is persisted as Expired before the call fails.
    pub fn ms_execute_operation(&mut self, op_id: u64, _executor: Principal, now: u64) -> (r:
        Result<(), Error>)
        requires
            old(self).wf(),
        ensures
            final(self).wf(),
            match r {
                Ok(()) => {
                    &&& old(self).has_operation(op_id)
                    &&& old(self).operation_at(op_id).status == OperationStatus::Pending
                    &&& now <= old(self).operation_at(op_id).expires_at
                    &&& old(self).operation_at(op_id).signatures@.len() >= old(
                        self,
                    ).required_for_op(op_id)
                    &&& (old(self).policy_of_op(op_id).require_owner_signature ==> old(
                        self,
                    ).operation_at(op_id).signatures@.contains(old(self).account_of_op(op_id).owner))
                    &&& final(self).same_but_operation(*old(self), op_id)
                    &&& final(self).operation_at(op_id) == MultiSigOperation {
                        status: OperationStatus::Executed,
                        ..old(self).operation_at(op_id)
                    }
                },
                Err(e) => match e {
                    Error::NotFound => !old(self).has_operation(op_id) && *final(self) == *old(
                        self,
                    ),
                    Error::BadState => old(self).has_operation(op_id) && old(self).operation_at(
                        op_id,
                    ).status != OperationStatus::Pending && *final(self) == *old(self),
                    Error::Timeout => {
                        &&& old(self).has_operation(op_id)
                        &&& old(self).operation_at(op_id).status == OperationStatus::Pending
                        &&& now > old(self).operation_at(op_id).expires_at
                        &&& final(self).same_but_operation(*old(self), op_id)
                        &&& final(self).operation_at(op_id) == MultiSigOperation {
                            status: OperationStatus::Expired,
                            ..old(self).operation_at(op_id)
                        }
                    },
                    Error::InsufficientSignatures => {
                        &&& old(self).has_operation(op_id)
                        &&& old(self).operation_at(op_id).status == OperationStatus::Pending
                        &&& now <= old(self).operation_at(op_id).expires_at
                        &&& old(self).operation_at(op_id).signatures@.len() < old(
                            self,
                        ).required_for_op(op_id)
                        &&& *final(self) == *old(self)
                    },
                    Error::MissingOwnerSignature => {
                        &&& old(self).has_operation(op_id)
                        &&& old(self).operation_at(op_id).status == OperationStatus::Pending
                        &&& now <= old(self).operation_at(op_id).expires_at
                        &&& old(self).operation_at(op_id).signatures@.len() >= old(
                            self,
                        ).required_for_op(op_id)
                        &&& old(self).policy_of_op(op_id).require_owner_signature
                        &&& !old(self).operation_at(op_id).signatures@.contains(
                            old(self).account_of_op(op_id).owner,
                        )
                        &&& *final(self) == *old(self)
                    },
                    _ => false,
                },
            },
    {
        if !(op_id >= 1 && op_id <= self.operations.len() as u64) {
            return Err(Error::NotFound);
        }
        let oidx = (op_id - 1) as usize;
        proof {
            assert(self.operations@[oidx as int].wf());
        }
        let account_id = self.operations[oidx].account_id;
        let n_accounts = self.accounts.len();
        let aidx = (account_id - 1) as usize;
        proof {
            assert(account_id <= n_accounts as u64);
            assert(aidx as int == account_id - 1);
        }
        if !matches!(self.operations[oidx].status, OperationStatus::Pending) {
            return Err(Error::BadState);
        }
        if now > self.operations[oidx].expires_at {
            let o = &mut self.operations[oidx];
            o.status = OperationStatus::Expired;
            proof {
                self.lemma_ops_wf_after_field_change(*old(self), oidx as int);
            }
            return Err(Error::Timeout);
        }
        let op_type = self.operations[oidx].op_type;
        let policy = self.ms_get_operation_policy(account_id, op_type);
        let required: u64 = if policy.require_all_signers {
            self.accounts[aidx].signers.len() as u64
        } else if policy.min_signatures > 0 {
            policy.min_signatures as u64
        } else {
            self.accounts[aidx].threshold as u64
        };
        if (self.operations[oidx].signatures.len() as u64) < required {
            return Err(Error::InsufficientSignatures);
        }
        if policy.require_owner_signature && !contains_principal(
            &self.operations[oidx].signatures,
            self.accounts[aidx].owner,
        ) {
            return Err(Error::MissingOwnerSignature);
        }
        let o = &mut self.operations[oidx];
        o.status = OperationStatus::Executed;
        proof {
            self.lemma_ops_wf_after_field_change(*old(self), oidx as int);
        }
        Ok(())
    }

    /// Cancel a Pending operation, on behalf of its proposer or the account
    /// owner.
    pub fn ms_cancel_operation(&mut self, op_id: u64, caller: Principal) -> (r: Result<(), Error>)
        requires
            old(self).wf(),
        ensures
            final(self).wf(),
            match r {
                Ok(()) => {
                    &&& old(self).has_operation(op_id)
                    &&& (caller == old(self).operation_at(op_id).proposer || caller == old(
                        self,
                    ).account_of_op(op_id).owner)
                    &&& old(self).operation_at(op_id).status == OperationStatus::Pending
                    &&& final(self).same_but_operation(*old(self), op_id)
                    &&& final(self).operation_at(op_id) == MultiSigOperation {
                        status: OperationStatus::Cancelled,
                        ..old(self).operation_at(op_id)
                    }
                },
                Err(e) => {
                    &&& *final(self) == *old(self)
                    &&& match e {
                        Error::NotFound => !old(self).has_operation(op_id),
                        Error::Unauthorized => old(self).has_operation(op_id) && caller != old(
                            self,
                        ).operation_at(op_id).proposer && caller != old(self).account_of_op(
                            op_id,
                        ).owner,
                        Error::BadState => old(self).has_operation(op_id) && (caller == old(
                            self,
                        ).operation_at(op_id).proposer || caller == old(self).account_of_op(
                            op_id,
                        ).owner) && old(self).operation_at(op_id).status
                            != OperationStatus::Pending,
                        _ => false,
                    }
                },
            },
    {
        if !(op_id >= 1 && op_id <= self.operations.len() as u64) {
            return Err(Error::NotFound);
        }
        let oidx = (op_id - 1) as usize;
        proof {
            assert(self.operations@[oidx as int].wf());
        }
        let account_id = self.operations[oidx].account_id;
        let n_accounts = self.accounts.len();
        let aidx = (account_id - 1) as usize;
        proof {
            assert(account_id <= n_accounts as u64);
            assert(aidx as int == account_id - 1);
        }
        if self.operations[oidx].proposer != caller && self.accounts[aidx].owner != caller {
            return Err(Error::Unauthorized);
        }
        if !matches!(self.operations[oidx].status, OperationStatus::Pending) {
            return Err(Error::BadState);
        }
        let o = &mut self.operations[oidx];
        o.status = OperationStatus::Cancelled;
        proof {
            self.lemma_ops_wf_after_field_change(*old(self), oidx as int);
        }
        Ok(())
    }

    /// Expire a Pending operation whose expiry has passed; report whether
    /// the transition happened. Timeout discovery is lazy, and this forces
    /// it for one operation.
    pub fn ms_check_and_expire(&mut self, op_id: u64, now: u64) -> (r: Result<bool, Error>)
        requires
            old(self).wf(),
        ensures
            final(self).wf(),
            match r {
                Ok(b) => {
                    &&& old(self).has_operation(op_id)
                    &&& b == (old(self).operation_at(op_id).status == OperationStatus::Pending
                        && now > old(self).operation_at(op_id).expires_at)
                    &&& if b {
                        &&& final(self).same_but_operation(*old(self), op_id)
                        &&& final(self).operation_at(op_id) == MultiSigOperation {
                            status: OperationStatus::Expired,
                            ..old(self).operation_at(op_id)
                        }
                    } else {
                        *final(self) == *old(self)
                    }
                },
                Err(e) => e == Error::NotFound && !old(self).has_operation(op_id) && *final(self)
                    == *old(self),
            },
    {
        if !(op_id >= 1 && op_id <= self.operations.len() as u64) {
            return Err(Error::NotFound);
        }
        let oidx = (op_id - 1) as usize;
        proof {
            assert(self.operations@[oidx as int].wf());
        }
        if matches!(self.operations[oidx].status, OperationStatus::Pending) && now
            > self.operations[oidx].expires_at {
            let o = &mut self.operations[oidx];
            o.status = OperationStatus::Expired;
            proof {
                self.lemma_ops_wf_after_field_change(*old(self), oidx as int);
            }
            Ok(true)
        } else {
            Ok(false)
        }
    }

    /// Force a Pending operation to Expired, on behalf of the account owner.
    pub fn ms_emergency_expire_operation(&mut self, op_id: u64, owner: Principal) -> (r: Result<
        (),
        Error,
    >)
        requires
            old(self).wf(),
        ensures
            final(self).wf(),
            match r {
                Ok(()) => {
                    &&& old(self).has_operation(op_id)
                    &&& owner == old(self).account_of_op(op_id).owner
                    &&& old(self).operation_at(op_id).status == OperationStatus::Pending
                    &&& final(self).same_but_operation(*old(self), op_id)
                    &&& final(self).operation_at(op_id) == MultiSigOperation {
                        status: OperationStatus::Expired,
                        ..old(self).operation_at(op_id)
                    }
                },
                Err(e) => {
                    &&& *final(self) == *old(self)
                    &&& match e {
                        Error::NotFound => !old(self).has_operation(op_id),
                        Error::Unauthorized => old(self).has_operation(op_id) && owner != old(
                            self,
                        ).account_of_op(op_id).owner,
                        Error::BadState => old(self).has_operation(op_id) && owner == old(
                            self,
                        ).account_of_op(op_id).owner && old(self).operation_at(op_id).status
                            != OperationStatus::Pending,
                        _ => false,
                    }
                },
            },
    {
        if !(op_id >= 1 && op_id <= self.operations.len() as u64) {
            return Err(Error::NotFound);
        }
        let oidx = (op_id - 1) as usize;
        proof {
            assert(self.operations@[oidx as int].wf());
        }
        let account_id = self.operations[oidx].account_id;
        let n_accounts = self.accounts.len();
        let aidx = (account_id - 1) as usize;
        proof {
            assert(account_id <= n_accounts as u64);
            assert(aidx as int == account_id - 1);
        }
        if self.accounts[aidx].owner != owner {
            return Err(Error::Unauthorized);
        }
        if !matches!(self.operations[oidx].status, OperationStatus::Pending) {
            return Err(Error::BadState);
        }
        let o = &mut self.operations[oidx];
        o.status = OperationStatus::Expired;
        proof {
            self.lemma_ops_wf_after_field_change(*old(self), oidx as int);
        }
        Ok(())
    }

    /// Rebase a Pending operation's expiry to `now` plus a clamped timeout,
    /// on behalf of the account owner.
    pub fn ms_emergency_extend_timeout(
        &mut self,
        op_id: u64,
        new_timeout_seconds: u64,
        owner: Principal,
        now: u64,
    ) -> (r: Result<(), Error>)
        requires
            old(self).wf(),
        ensures
            final(self).wf(),
            match r {
                Ok(()) => {
                    &&& old(self).has_operation(op_id)
                    &&& owner == old(self).account_of_op(op_id).owner
                    &&& old(self).operation_at(op_id).status == OperationStatus::Pending
                    &&& now + spec_clamped_timeout(new_timeout_seconds) <= u64::MAX
                    &&& final(self).same_but_operation(*old(self), op_id)
                    &&& final(self).operation_at(op_id) == MultiSigOperation {
                        expires_at: (now + spec_clamped_timeout(new_timeout_seconds)) as u64,
                        ..old(self).operation_at(op_id)
                    }
                },
                Err(e) => {
                    &&& *final(self) == *old(self)
                    &&& match e {
                        Error::NotFound => !old(self).has_operation(op_id),
                        Error::Unauthorized => old(self).has_operation(op_id) && owner != old(
                            self,
                        ).account_of_op(op_id).owner,
                        Error::BadState => old(self).has_operation(op_id) && owner == old(
                            self,
                        ).account_of_op(op_id).owner && old(self).operation_at(op_id).status
                            != OperationStatus::Pending,
                        Error::InvalidInput => old(self).has_operation(op_id) && owner == old(
                            self,
                        ).account_of_op(op_id).owner && old(self).operation_at(op_id).status
                            == OperationStatus::Pending && now + spec_clamped_timeout(
                            new_timeout_seconds,
                        ) > u64::MAX,
                        _ => false,
                    }
                },
            },
    {
        if !(op_id >= 1 && op_id <= self.operations.len() as u64) {
            return Err(Error::NotFound);
        }
        let oidx = (op_id - 1) as usize;
        proof {
            assert(self.operations@[oidx as int].wf());
        }
        let account_id = self.operations[oidx].account_id;
        let n_accounts = self.accounts.len();
        let aidx = (account_id - 1) as usize;
        proof {
            assert(account_id <= n_accounts as u64);
            assert(aidx as int == account_id - 1);
        }
        if self.accounts[aidx].owner != owner {
            return Err(Error::Unauthorized);
        }
        if !matches!(self.operations[oidx].status, OperationStatus::Pending) {
            return Err(Error::BadState);
        }
        let timeout = clamp_timeout(new_timeout_seconds);
        let expires_at = match now.checked_add(timeout) {
            Some(t) => t,
            None => {
                return Err(Error::InvalidInput);
            },
        };
        let o = &mut self.operations[oidx];
        o.expires_at = expires_at;
        proof {
            self.lemma_ops_wf_after_field_change(*old(self), oidx as int);
        }
        Ok(())
    }

    /// Gate for downstream consumers: succeeds exactly when the operation
    /// exists, is Executed, and has the expected type.
    pub fn ms_require_executed_operation(&self, op_id: u64, expected_type: OperationType) -> (r:
        Result<(), Error>)
        requires
            self.wf(),
        ensures
            match r {
                Ok(()) => self.has_operation(op_id) && self.operation_at(op_id).status
                    == OperationStatus::Executed && self.operation_at(op_id).op_type
                    == expected_type,
                Err(e) => match e {
                    Error::NotFound => !self.has_operation(op_id),
                    Error::BadState => self.has_operation(op_id) && self.operation_at(op_id).status
                        != OperationStatus::Executed,
                    Error::TypeMismatch => self.has_operation(op_id) && self.operation_at(
                        op_id,
                    ).status == OperationStatus::Executed && self.operation_at(op_id).op_type
                        != expected_type,
                    _ => false,
                },
            },
    {
        if !(op_id >= 1 && op_id <= self.operations.len() as u64) {
            return Err(Error::NotFound);
        }
        let oidx = (op_id - 1) as usize;
        if !matches!(self.operations[oidx].status, OperationStatus::Executed) {
            return Err(Error::BadState);
        }
        if !(self.operations[oidx].op_type == expected_type) {
            return Err(Error::TypeMismatch);
        }
        Ok(())
    }

    /// Ids of the account's operations that are Pending and not expired at
    /// `now`.
    pub fn ms_get_pending_operations(&self, account_id: u64, now: u64) -> (r: Vec<u64>)
        requires
            self.wf(),
        ensures
            r@ == spec_pending_ids(self.operations@, account_id, now),
    {
        let mut out: Vec<u64> = Vec::new();
        let mut i: usize = 0;
        while i < self.operations.len()
            invariant
                i <= self.operations@.len(),
                out@ == spec_pending_ids(self.operations@.take(i as int), account_id, now),
            decreases self.operations@.len() - i,
        {
            proof {
                assert(self.operations@.take(i + 1).drop_last() == self.operations@.take(i as int));
                assert(self.operations@.take(i + 1).last() == self.operations@[i as int]);
            }
            let op = &self.operations[i];
            if op.account_id == account_id && matches!(op.status, OperationStatus::Pending) && now
                <= op.expires_at {
                out.push(op.id);
            }
            i += 1;
        }
        proof {
            assert(self.operations@.take(self.operations@.len() as int) == self.operations@);
        }
        out
    }

    /// Ids of the accounts owned by `owner`.
    pub fn ms_list_accounts_by_owner(&self, owner: Principal) -> (r: Vec<u64>)
        requires
            self.wf(),
        ensures
            r@ == spec_owned_ids(self.accounts@, owner),
    {
        let mut out: Vec<u64> = Vec::new();
        let mut i: usize = 0;
        while i < self.accounts.len()
            invariant
                i <= self.accounts@.len(),
                out@ == spec_owned_ids(self.accounts@.take(i as int), owner),
            decreases self.accounts@.len() - i,
        {
            proof {
                assert(self.accounts@.take(i + 1).drop_last() == self.accounts@.take(i as int));
                assert(self.accounts@.take(i + 1).last() == self.accounts@[i as int]);
            }
            if self.accounts[i].owner == owner {
                out.push(self.accounts[i].id);
            }
            i += 1;
        }
        proof {
            assert(self.accounts@.take(self.accounts@.len() as int) == self.accounts@);
        }
        out
    }

    /// Expire every Pending operation of the account whose expiry lies
    /// before `now`; returns how many were expired. After the sweep, no
    /// Pending operation of the account is past its expiry.
    pub fn ms_sweep_expired_operations(&mut self, account_id: u64, now: u64) -> (r: u64)
        requires
            old(self).wf(),
        ensures
            final(self).wf(),
            final(self).accounts == old(self).accounts,
            final(self).policies == old(self).policies,
            final(self).operations@.len() == old(self).operations@.len(),
            forall|i: int|
                0 <= i < old(self).operations@.len() ==> final(self).operations@[i]
                    == spec_sweep_op(old(self).operations@[i], account_id, now),
            r == spec_sweep_count(old(self).operations@, account_id, now),
            forall|i: int|
                0 <= i < final(self).operations@.len() ==> !spec_sweepable(
                    final(self).operations@[i],
                    account_id,
                    now,
                ),
    {
        let mut count: u64 = 0;
        let mut i: usize = 0;
        let n = self.operations.len();
        while i < n
            invariant
                i <= n,
                n == old(self).operations@.len(),
                self.accounts == old(self).accounts,
                self.policies == old(self).policies,
                self.operations@.len() == n,
                forall|k: int|
                    0 <= k < i ==> self.operations@[k] == spec_sweep_op(
                        old(self).operations@[k],
                        account_id,
                        now,
                    ),
                forall|k: int| i <= k < n ==> self.operations@[k] == old(self).operations@[k],
                count == spec_sweep_count(old(self).operations@.take(i as int), account_id, now),
                count <= i,
            decreases n - i,
        {
            proof {
                assert(old(self).operations@.take(i + 1).drop_last() == old(self).operations@.take(
                    i as int,
                ));
                assert(old(self).operations@.take(i + 1).last() == old(self).operations@[i as int]);
            }
            let sweep = self.operations[i].account_id == account_id && matches!(
                self.operations[i].status,
                OperationStatus::Pending,
            ) && now > self.operations[i].expires_at;
            if sweep {
                let o = &mut self.operations[i];
                o.status = OperationStatus::Expired;
                count += 1;
            }
            i += 1;
        }
        proof {
            assert(old(self).operations@.take(n as int) == old(self).operations@);
            assert forall|k: int| 0 <= k < self.operations@.len() implies !spec_sweepable(
                self.operations@[k],
                account_id,
                now,
            ) by {
                assert(self.operations@[k] == spec_sweep_op(
                    old(self).operations@[k],
                    account_id,
                    now,
                ));
            };
            assert forall|k: int| 0 <= k < self.operations@.len() implies (
            #[trigger] self.operations@[k]).wf() && self.operations@[k].id == k + 1 && 1
                <= self.operations@[k].account_id <= self.accounts@.len() by {
                assert(old(self).operations@[k].wf());
                assert(self.operations@[k] == spec_sweep_op(
                    old(self).operations@[k],
                    account_id,
                    now,
                ));
            };
        }
        count
    }
}

/// Monotonic ids: account and operation ids equal one plus their creation
/// rank, so they strictly increase and are never reused.
pub proof fn lemma_ms_ids_monotonic(reg: MultiSigRegistry, i: int, j: int)
    requires
        reg.wf(),
    ensures
        0 <= i < j < reg.accounts@.len() ==> reg.accounts@[i].id < reg.accounts@[j].id,
        0 <= i < j < reg.operations@.len() ==> reg.operations@[i].id < reg.operations@[j].id,
{
}

/// Two operations agree on everything except possibly the signature list
/// and status.
pub open spec fn same_op_but_signatures(a: MultiSigOperation, b: MultiSigOperation) -> bool {
    &&& a.id == b.id
    &&& a.account_id == b.account_id
    &&& a.op_type == b.op_type
    &&& a.description == b.description
    &&& a.proposer == b.proposer
    &&& a.nonce == b.nonce
    &&& a.created_at == b.created_at
    &&& a.expires_at == b.expires_at
}

impl MultiSigAccount {
    /// In a distinct signer list, any matching index is `index_of`.
    pub proof fn lemma_signer_index(self, p: Principal, i: int)
        requires
            distinct_seq(self.signers@),
            0 <= i < self.signers@.len(),
            self.signers@[i] == p,
        ensures
            self.signers@.contains(p),
            self.signers@.index_of(p) == i,
    {
        assert(self.signers@.contains(p));
        let j = self.signers@.index_of(p);
        assert(self.signers@[j] == p);
        if j < i {
            assert(self.signers@[j] != self.signers@[i]);
        } else if i < j {
            assert(self.signers@[i] != self.signers@[j]);
        }
    }

    /// Removing a value from a distinct list is removal at its index.
    pub proof fn lemma_remove_value_is_remove_idx(self, p: Principal, i: int)
        requires
            distinct_seq(self.signers@),
            0 <= i < self.signers@.len(),
            self.signers@[i] == p,
        ensures
            self.signers@.remove_value(p) == self.signers@.remove(i),
    {
        self.lemma_signer_index(p, i);
        assert(self.signers@.contains(p));
        self.signers@.index_of_first_ensures(p);
        match self.signers@.index_of_first(p) {
            Some(k) => {
                if k < i {
                    assert(self.signers@[k] != self.signers@[i]);
                } else if i < k {
                    assert(self.signers@[i] != self.signers@[k]);
                }
            },
            None => {},
        }
    }
}

} // verus!
