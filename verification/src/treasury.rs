//! Treasury engine: balance accounting under a conservation invariant,
//! threshold-gated withdrawals, per-category budgets, and an emergency
//! pause.

use vstd::prelude::*;

use crate::guilds::GuildRegistry;
use crate::multisig::{distinct_seq, threshold_safe, MultiSigRegistry, OperationType,
    contains_principal};
use crate::roles::Role;
use crate::{Error, Principal, WITHDRAWAL_TIMEOUT};

verus! {

#[derive(Clone, Copy, Debug, PartialEq, Eq, Structural)]
pub enum TransactionType {
    Deposit,
    Withdrawal,
    MilestonePayment,
    AllowanceGrant,
}

#[derive(Clone, Copy, Debug, PartialEq, Eq, Structural)]
pub enum TransactionStatus {
    Proposed,
    Approved,
    Executed,
    Rejected,
    Expired,
}

/// One ledger entry of a treasury. The ledger is append-only and
/// newest-last; only status and signatures of an entry ever change.
pub struct Transaction {
    pub id: u64,
    pub tx_type: TransactionType,
    pub amount: i128,
    pub token: Option<u64>,
    pub initiator: Principal,
    pub recipient: Option<Principal>,
    pub reason: String,
    pub signatures: Vec<Principal>,
    pub status: TransactionStatus,
    pub created_at: u64,
    pub expires_at: u64,
}

impl Transaction {
    /// Signatures are distinct; amounts are never negative; only
    /// withdrawals with positive amounts sit in the approval pipeline.
    pub open spec fn wf(self) -> bool {
        &&& distinct_seq(self.signatures@)
        &&& self.amount >= 0
        &&& (self.status == TransactionStatus::Proposed || self.status
            == TransactionStatus::Approved) ==> (self.tx_type == TransactionType::Withdrawal
            && self.amount > 0)
    }
}

/// The balance a treasury holds in one token (`None` is the native token).
#[derive(Clone, Copy, Debug, PartialEq, Eq, Structural)]
pub struct TokenBalance {
    pub token: Option<u64>,
    pub amount: i128,
}

/// A spending budget for one transaction category over a rolling window.
pub struct Budget {
    pub category: String,
    pub limit: i128,
    pub window_seconds: u64,
    pub spent: i128,
    pub window_start: u64,
}

/// A standing allowance granted to a recipient.
#[derive(Clone, Copy, Debug, PartialEq, Eq, Structural)]
pub struct Allowance {
    pub recipient: Principal,
    pub amount: i128,
    pub token: Option<u64>,
    pub granted_at: u64,
}

/// Two ledger entries carry the same data.
pub open spec fn tx_congruent(a: Transaction, b: Transaction) -> bool {
    &&& a.id == b.id
    &&& a.tx_type == b.tx_type
    &&& a.amount == b.amount
    &&& a.token == b.token
    &&& a.initiator == b.initiator
    &&& a.recipient == b.recipient
    &&& a.reason@ == b.reason@
    &&& a.signatures@ == b.signatures@
    &&& a.status == b.status
    &&& a.created_at == b.created_at
    &&& a.expires_at == b.expires_at
}

impl Clone for Transaction {
    /// A clone carries the same data as the original entry.
    fn clone(&self) -> (r: Transaction)
        ensures
            tx_congruent(r, *self),
    {
        let r = Transaction {
            id: self.id,
            tx_type: self.tx_type,
            amount: self.amount,
            token: self.token,
            initiator: self.initiator,
            recipient: self.recipient,
            reason: self.reason.clone(),
            signatures: self.signatures.clone(),
            status: self.status,
            created_at: self.created_at,
            expires_at: self.expires_at,
        };
        proof {
            assert(r.signatures@ =~= self.signatures@);
        }
        r
    }
}

/// Find the entry of `token` in a balance table.
pub fn find_balance(bals: &Vec<TokenBalance>, token: Option<u64>) -> (r: Option<usize>)
    ensures
        match r {
            Some(b) => b < bals@.len() && bals@[b as int].token == token,
            None => !has_balance(bals@, token),
        },
{
    let mut i: usize = 0;
    while i < bals.len()
        invariant
            i <= bals@.len(),
            forall|j: int| 0 <= j < i ==> bals@[j].token != token,
        decreases bals@.len() - i,
    {
        if token_eq(bals[i].token, token) {
            return Some(i);
        }
        i += 1;
    }
    None
}

/// Compare token keys.
pub fn token_eq(a: Option<u64>, b: Option<u64>) -> (r: bool)
    ensures
        r == (a == b),
{
    match (a, b) {
        (Option::None, Option::None) => true,
        (Option::Some(x), Option::Some(y)) => x == y,
        _ => false,
    }
}

pub open spec fn has_balance(bals: Seq<TokenBalance>, t: Option<u64>) -> bool {
    exists|i: int| 0 <= i < bals.len() && bals[i].token == t
}

pub open spec fn balance_idx(bals: Seq<TokenBalance>, t: Option<u64>) -> int {
    choose|i: int| 0 <= i < bals.len() && bals[i].token == t
}

/// Balance held in token `t`; 0 when no entry exists.
pub open spec fn spec_balance_of(bals: Seq<TokenBalance>, t: Option<u64>) -> int {
    if has_balance(bals, t) {
        bals[balance_idx(bals, t)].amount as int
    } else {
        0
    }
}

pub open spec fn balances_distinct(bals: Seq<TokenBalance>) -> bool {
    forall|i: int, j: int| 0 <= i < j < bals.len() ==> bals[i].token != bals[j].token
}

/// With distinct token keys, any matching index is the balance index.
pub proof fn lemma_balance_idx(bals: Seq<TokenBalance>, t: Option<u64>, i: int)
    requires
        balances_distinct(bals),
        0 <= i < bals.len(),
        bals[i].token == t,
    ensures
        has_balance(bals, t),
        balance_idx(bals, t) == i,
{
    assert(has_balance(bals, t));
    let j = balance_idx(bals, t);
    if j < i {
        assert(bals[j].token != bals[i].token);
    } else if i < j {
        assert(bals[i].token != bals[j].token);
    }
}

/// What one ledger entry moves in token `t`: executed deposits flow in,
/// executed withdrawals and milestone payments flow out, everything else
/// moves nothing.
pub open spec fn tx_contrib(tx: Transaction, t: Option<u64>) -> int {
    if tx.status == TransactionStatus::Executed && tx.token == t {
        match tx.tx_type {
            TransactionType::Deposit => tx.amount as int,
            TransactionType::Withdrawal => -(tx.amount as int),
            TransactionType::MilestonePayment => -(tx.amount as int),
            TransactionType::AllowanceGrant => 0,
        }
    } else {
        0
    }
}

/// Net executed flow of token `t` over a ledger: executed deposits minus
/// executed withdrawals and milestone payments.
pub open spec fn net_flow(txs: Seq<Transaction>, t: Option<u64>) -> int
    decreases txs.len(),
{
    if txs.len() == 0 {
        0
    } else {
        net_flow(txs.drop_last(), t) + tx_contrib(txs.last(), t)
    }
}

/// Appending a ledger entry adds exactly its contribution.
pub proof fn lemma_net_flow_push(txs: Seq<Transaction>, tx: Transaction, t: Option<u64>)
    ensures
        net_flow(txs.push(tx), t) == net_flow(txs, t) + tx_contrib(tx, t),
{
    assert(txs.push(tx).drop_last() =~= txs);
    assert(txs.push(tx).last() == tx);
}

/// Replacing one ledger entry swaps its contribution.
pub proof fn lemma_net_flow_update(txs: Seq<Transaction>, i: int, tx2: Transaction, t: Option<u64>)
    requires
        0 <= i < txs.len(),
    ensures
        net_flow(txs.update(i, tx2), t) == net_flow(txs, t) - tx_contrib(txs[i], t) + tx_contrib(
            tx2,
            t,
        ),
    decreases txs.len(),
{
    let u = txs.update(i, tx2);
    if i == txs.len() - 1 {
        assert(u.drop_last() =~= txs.drop_last());
        assert(u.last() == tx2);
    } else {
        assert(u.drop_last() =~= txs.drop_last().update(i, tx2));
        assert(u.last() == txs.last());
        lemma_net_flow_update(txs.drop_last(), i, tx2, t);
    }
}

pub open spec fn has_budget(budgets: Seq<Budget>, cat: Seq<char>) -> bool {
    exists|i: int| 0 <= i < budgets.len() && budgets[i].category@ == cat
}

pub open spec fn budget_idx(budgets: Seq<Budget>, cat: Seq<char>) -> int {
    choose|i: int| 0 <= i < budgets.len() && budgets[i].category@ == cat
}

pub open spec fn budgets_distinct(budgets: Seq<Budget>) -> bool {
    forall|i: int, j: int| 0 <= i < j < budgets.len() ==> budgets[i].category@
        != budgets[j].category@
}

/// With distinct categories, any matching index is the budget index.
pub proof fn lemma_budget_idx(budgets: Seq<Budget>, cat: Seq<char>, i: int)
    requires
        budgets_distinct(budgets),
        0 <= i < budgets.len(),
        budgets[i].category@ == cat,
    ensures
        has_budget(budgets, cat),
        budget_idx(budgets, cat) == i,
{
    assert(has_budget(budgets, cat));
    let j = budget_idx(budgets, cat);
    if j < i {
        assert(budgets[j].category@ != budgets[i].category@);
    } else if i < j {
        assert(budgets[i].category@ != budgets[j].category@);
    }
}

/// The budget category each transaction type spends against.
pub open spec fn spec_category(t: TransactionType) -> Seq<char> {
    match t {
        TransactionType::Deposit => "deposit"@,
        TransactionType::Withdrawal => "withdrawal"@,
        TransactionType::MilestonePayment => "milestone"@,
        TransactionType::AllowanceGrant => "allowance"@,
    }
}

/// Build the category string of a transaction type.
pub fn category_of(t: TransactionType) -> (r: String)
    ensures
        r@ == spec_category(t),
{
    match t {
        TransactionType::Deposit => "deposit".to_owned(),
        TransactionType::Withdrawal => "withdrawal".to_owned(),
        TransactionType::MilestonePayment => "milestone".to_owned(),
        TransactionType::AllowanceGrant => "allowance".to_owned(),
    }
}

/// A guild's shared treasury.
pub struct Treasury {
    pub id: u64,
    pub guild_id: u64,
    pub signers: Vec<Principal>,
    pub threshold: u32,
    pub paused: bool,
    pub balances: Vec<TokenBalance>,
    pub transactions: Vec<Transaction>,
    pub budgets: Vec<Budget>,
    pub allowances: Vec<Allowance>,
}

impl Treasury {
    /// TREASURY-CONSERVATION: for every token, the recorded balance equals
    /// the net executed flow of the ledger.
    pub open spec fn conserved(self) -> bool {
        forall|t: Option<u64>| #[trigger] spec_balance_of(self.balances@, t) == net_flow(
            self.transactions@,
            t,
        )
    }

    pub open spec fn wf(self) -> bool {
        &&& distinct_seq(self.signers@)
        &&& self.signers@.len() >= 1
        &&& threshold_safe(self.threshold, self.signers@.len() as int)
        &&& balances_distinct(self.balances@)
        &&& forall|i: int| 0 <= i < self.balances@.len() ==> (#[trigger] self.balances@[i]).amount >= 0
        &&& forall|i: int|
            0 <= i < self.transactions@.len() ==> (#[trigger] self.transactions@[i]).wf()
                && self.transactions@[i].id == i + 1
        &&& budgets_distinct(self.budgets@)
        &&& forall|i: int|
            0 <= i < self.budgets@.len() ==> 0 <= (#[trigger] self.budgets@[i]).spent
                <= self.budgets@[i].limit && self.budgets@[i].window_seconds >= 1
        &&& self.conserved()
    }
}

/// All treasuries, with dense monotonically assigned ids.
pub struct TreasuryRegistry {
    pub treasuries: Vec<Treasury>,
}

impl TreasuryRegistry {
    pub open spec fn wf(self) -> bool {
        forall|i: int|
            0 <= i < self.treasuries@.len() ==> (#[trigger] self.treasuries@[i]).wf()
                && self.treasuries@[i].id == i + 1 && self.treasuries@[i].guild_id >= 1
    }

    pub open spec fn has_treasury(self, id: u64) -> bool {
        1 <= id <= self.treasuries@.len()
    }

    pub open spec fn treasury_at(self, id: u64) -> Treasury {
        self.treasuries@[id - 1]
    }

    /// Treasuries agree with `other` except possibly the one with `id`.
    pub open spec fn same_but_treasury(self, other: TreasuryRegistry, id: u64) -> bool {
        &&& self.treasuries@.len() == other.treasuries@.len()
        &&& forall|i: int|
            0 <= i < self.treasuries@.len() && i != id - 1 ==> self.treasuries@[i]
                == other.treasuries@[i]
    }

    /// Fresh registry with no treasuries.
    pub fn new() -> (r: TreasuryRegistry)
        ensures
            r.wf(),
            r.treasuries@.len() == 0,
    {
        TreasuryRegistry { treasuries: Vec::new() }
    }

    /// Create a treasury for an existing guild. The signer set must be
    /// duplicate-free and the threshold THRESHOLD-SAFE for it.
    pub fn initialize_treasury(
        &mut self,
        guilds: &GuildRegistry,
        guild_id: u64,
        signers: Vec<Principal>,
        threshold: u32,
    ) -> (r: Result<u64, Error>)
        requires
            old(self).wf(),
            guilds.wf(),
            old(self).treasuries@.len() < usize::MAX,
        ensures
            final(self).wf(),
            match r {
                Ok(id) => {
                    &&& guilds.has_guild(guild_id)
                    &&& distinct_seq(signers@)
                    &&& signers@.len() >= 1
                    &&& threshold_safe(threshold, signers@.len() as int)
                    &&& id == old(self).treasuries@.len() + 1
                    &&& final(self).treasuries@.len() == old(self).treasuries@.len() + 1
                    &&& forall|i: int|
                        0 <= i < old(self).treasuries@.len() ==> final(self).treasuries@[i] == old(
                            self,
                        ).treasuries@[i]
                    &&& final(self).treasuries@.last().id == id
                    &&& final(self).treasuries@.last().guild_id == guild_id
                    &&& final(self).treasuries@.last().signers@ == signers@
                    &&& final(self).treasuries@.last().threshold == threshold
                    &&& final(self).treasuries@.last().paused == false
                    &&& final(self).treasuries@.last().balances@.len() == 0
                    &&& final(self).treasuries@.last().transactions@.len() == 0
                    &&& final(self).treasuries@.last().budgets@.len() == 0
                    &&& final(self).treasuries@.last().allowances@.len() == 0
                },
                Err(e) => {
                    &&& *final(self) == *old(self)
                    &&& match e {
                        Error::NotFound => !guilds.has_guild(guild_id),
                        Error::InvalidInput => guilds.has_guild(guild_id) && !(distinct_seq(
                            signers@,
                        ) && signers@.len() >= 1 && threshold_safe(
                            threshold,
                            signers@.len() as int,
                        )),
                        _ => false,
                    }
                },
            },
    {
        if !(guild_id >= 1 && guild_id <= guilds.guilds.len() as u64) {
            return Err(Error::NotFound);
        }
        if signers.len() < 1 {
            return Err(Error::InvalidInput);
        }
        // reject duplicate signers
        let mut dup = false;
        let mut i: usize = 0;
        while i < signers.len()
            invariant
                i <= signers@.len(),
                dup ==> !distinct_seq(signers@),
                !dup ==> forall|a: int, b: int|
                    0 <= a < b < signers@.len() && a < i ==> signers@[a] != signers@[b],
            decreases signers@.len() - i,
        {
            let mut j: usize = i + 1;
            while j < signers.len()
                invariant
                    i < j <= signers@.len(),
                    dup ==> !distinct_seq(signers@),
                    !dup ==> forall|a: int, b: int|
                        0 <= a < b < signers@.len() && a < i ==> signers@[a] != signers@[b],
                    !dup ==> forall|b: int| i < b < j ==> signers@[i as int] != signers@[b],
                decreases signers@.len() - j,
            {
                if signers[i] == signers[j] {
                    dup = true;
                }
                j += 1;
            }
            i += 1;
        }
        if dup {
            return Err(Error::InvalidInput);
        }
        let n = signers.len();
        let min_safe = n / 2 + 1;
        if (threshold as usize) < min_safe || (threshold as usize) > n {
            return Err(Error::InvalidInput);
        }
        let id = (self.treasuries.len() + 1) as u64;
        let treasury = Treasury {
            id,
            guild_id,
            signers,
            threshold,
            paused: false,
            balances: Vec::new(),
            transactions: Vec::new(),
            budgets: Vec::new(),
            allowances: Vec::new(),
        };
        self.treasuries.push(treasury);
        proof {
            let tnew = self.treasuries@.last();
            assert forall|t: Option<u64>| #[trigger] spec_balance_of(tnew.balances@, t) == net_flow(
                tnew.transactions@,
                t,
            ) by {
                assert(!has_balance(tnew.balances@, t));
            };
            assert(tnew.wf());
            assert forall|i: int| 0 <= i < self.treasuries@.len() implies (
            #[trigger] self.treasuries@[i]).wf() && self.treasuries@[i].id == i + 1
                && self.treasuries@[i].guild_id >= 1 by {
                if i < self.treasuries@.len() - 1 {
                    assert(self.treasuries@[i] == old(self).treasuries@[i]);
                }
            };
        }
        Ok(id)
    }

    /// Balance the treasury holds in `token`; 0 for an unknown treasury.
    pub fn get_balance(&self, treasury_id: u64, token: Option<u64>) -> (r: i128)
        requires
            self.wf(),
        ensures
            self.has_treasury(treasury_id) ==> r == spec_balance_of(
                self.treasury_at(treasury_id).balances@,
                token,
            ),
            !self.has_treasury(treasury_id) ==> r == 0,
    {
        if !(treasury_id >= 1 && treasury_id <= self.treasuries.len() as u64) {
            return 0;
        }
        let t = &self.treasuries[(treasury_id - 1) as usize];
        match find_balance(&t.balances, token) {
            Some(b) => {
                proof {
                    assert(self.treasuries@[treasury_id - 1].wf());
                    lemma_balance_idx(t.balances@, token, b as int);
                }
                t.balances[b].amount
            },
            None => 0,
        }
    }

    /// Toggle the emergency pause, on behalf of a treasury signer. While
    /// paused the treasury accepts no deposits, proposals, or executions.
    pub fn emergency_pause(&mut self, treasury_id: u64, caller: Principal, flag: bool) -> (r:
        Result<(), Error>)
        requires
            old(self).wf(),
        ensures
            final(self).wf(),
            match r {
                Ok(()) => {
                    &&& old(self).has_treasury(treasury_id)
                    &&& old(self).treasury_at(treasury_id).signers@.contains(caller)
                    &&& final(self).same_but_treasury(*old(self), treasury_id)
                    &&& final(self).treasury_at(treasury_id) == Treasury {
                        paused: flag,
                        ..old(self).treasury_at(treasury_id)
                    }
                },
                Err(e) => {
                    &&& *final(self) == *old(self)
                    &&& match e {
                        Error::NotFound => !old(self).has_treasury(treasury_id),
                        Error::Unauthorized => old(self).has_treasury(treasury_id) && !old(
                            self,
                        ).treasury_at(treasury_id).signers@.contains(caller),
                        _ => false,
                    }
                },
            },
    {
        if !(treasury_id >= 1 && treasury_id <= self.treasuries.len() as u64) {
            return Err(Error::NotFound);
        }
        let idx = (treasury_id - 1) as usize;
        if !contains_principal(&self.treasuries[idx].signers, caller) {
            return Err(Error::Unauthorized);
        }
        let t = &mut self.treasuries[idx];
        t.paused = flag;
        proof {
            let tnew = self.treasuries@[idx as int];
            let t0 = old(self).treasuries@[idx as int];
            assert forall|tk: Option<u64>| #[trigger] spec_balance_of(tnew.balances@, tk)
                == net_flow(tnew.transactions@, tk) by {
                assert(spec_balance_of(t0.balances@, tk) == net_flow(t0.transactions@, tk));
            };
            assert(tnew.wf());
            assert forall|i: int| 0 <= i < self.treasuries@.len() implies (
            #[trigger] self.treasuries@[i]).wf() && self.treasuries@[i].id == i + 1
                && self.treasuries@[i].guild_id >= 1 by {
                if i != idx {
                    assert(self.treasuries@[i] == old(self).treasuries@[i]);
                }
            };
        }
        Ok(())
    }

    /// Record a deposit that the token host has transferred in: appends an
    /// Executed Deposit entry and credits the balance.
    pub fn deposit(
        &mut self,
        treasury_id: u64,
        from: Principal,
        amount: i128,
        token: Option<u64>,
        now: u64,
    ) -> (r: Result<bool, Error>)
        requires
            old(self).wf(),
            old(self).has_treasury(treasury_id) ==> old(self).treasury_at(
                treasury_id,
            ).transactions@.len() < usize::MAX && old(self).treasury_at(treasury_id).balances@.len()
                < usize::MAX,
        ensures
            final(self).wf(),
            match r {
                Ok(b) => {
                    &&& b
                    &&& old(self).has_treasury(treasury_id)
                    &&& !old(self).treasury_at(treasury_id).paused
                    &&& amount > 0
                    &&& spec_balance_of(old(self).treasury_at(treasury_id).balances@, token)
                        + amount <= i128::MAX
                    &&& final(self).same_but_treasury(*old(self), treasury_id)
                    &&& final(self).treasury_at(treasury_id).transactions@.len() == old(
                        self,
                    ).treasury_at(treasury_id).transactions@.len() + 1
                    &&& forall|i: int|
                        0 <= i < old(self).treasury_at(treasury_id).transactions@.len() ==> final(self).treasury_at(treasury_id).transactions@[i] == old(self).treasury_at(
                            treasury_id,
                        ).transactions@[i]
                    &&& final(self).treasury_at(treasury_id).transactions@.last().tx_type
                        == TransactionType::Deposit
                    &&& final(self).treasury_at(treasury_id).transactions@.last().status
                        == TransactionStatus::Executed
                    &&& final(self).treasury_at(treasury_id).transactions@.last().amount == amount
                    &&& final(self).treasury_at(treasury_id).transactions@.last().token == token
                    &&& final(self).treasury_at(treasury_id).transactions@.last().initiator == from
                    &&& final(self).treasury_at(treasury_id).transactions@.last().created_at == now
                    &&& spec_balance_of(final(self).treasury_at(treasury_id).balances@, token)
                        == spec_balance_of(old(self).treasury_at(treasury_id).balances@, token)
                        + amount
                    &&& forall|tk: Option<u64>|
                        tk != token ==> spec_balance_of(
                            final(self).treasury_at(treasury_id).balances@,
                            tk,
                        ) == spec_balance_of(old(self).treasury_at(treasury_id).balances@, tk)
                    &&& final(self).treasury_at(treasury_id).signers == old(self).treasury_at(
                        treasury_id,
                    ).signers
                    &&& final(self).treasury_at(treasury_id).threshold == old(self).treasury_at(
                        treasury_id,
                    ).threshold
                    &&& final(self).treasury_at(treasury_id).paused == old(self).treasury_at(
                        treasury_id,
                    ).paused
                    &&& final(self).treasury_at(treasury_id).budgets == old(self).treasury_at(
                        treasury_id,
                    ).budgets
                },
                Err(e) => {
                    &&& *final(self) == *old(self)
                    &&& match e {
                        Error::NotFound => !old(self).has_treasury(treasury_id),
                        Error::BadState => old(self).has_treasury(treasury_id) && old(
                            self,
                        ).treasury_at(treasury_id).paused,
                        Error::InvalidInput => old(self).has_treasury(treasury_id) && !old(
                            self,
                        ).treasury_at(treasury_id).paused && (amount <= 0 || spec_balance_of(
                            old(self).treasury_at(treasury_id).balances@,
                            token,
                        ) + amount > i128::MAX),
                        _ => false,
                    }
                },
            },
    {
        if !(treasury_id >= 1 && treasury_id <= self.treasuries.len() as u64) {
            return Err(Error::NotFound);
        }
        let idx = (treasury_id - 1) as usize;
        if self.treasuries[idx].paused {
            return Err(Error::BadState);
        }
        if amount <= 0 {
            return Err(Error::InvalidInput);
        }
        let ghost t0 = self.treasuries@[idx as int];
        // locate the balance entry of the token
        let bidx = find_balance(&self.treasuries[idx].balances, token);
        let current: i128 = match bidx {
            Some(b) => self.treasuries[idx].balances[b].amount,
            None => 0,
        };
        if current > i128::MAX - amount {
            return Err(Error::InvalidInput);
        }
        let tx_id = (self.treasuries[idx].transactions.len() + 1) as u64;
        let mut signatures: Vec<Principal> = Vec::new();
        signatures.push(from);
        let tx = Transaction {
            id: tx_id,
            tx_type: TransactionType::Deposit,
            amount,
            token,
            initiator: from,
            recipient: None,
            reason: String::new(),
            signatures,
            status: TransactionStatus::Executed,
            created_at: now,
            expires_at: now,
        };
        let t = &mut self.treasuries[idx];
        t.transactions.push(tx);
        match bidx {
            Some(b) => {
                let slot = &mut t.balances[b];
                slot.amount = slot.amount + amount;
            },
            None => {
                t.balances.push(TokenBalance { token, amount });
            },
        }
        proof {
            let tnew = self.treasuries@[idx as int];
            let txv = tnew.transactions@.last();
            // ledger well-formedness
            assert forall|i: int| 0 <= i < tnew.transactions@.len() implies (
            #[trigger] tnew.transactions@[i]).wf() && tnew.transactions@[i].id == i + 1 by {
                if i < tnew.transactions@.len() - 1 {
                    assert(tnew.transactions@[i] == t0.transactions@[i]);
                }
            };
            // balance key distinctness and non-negativity
            match bidx {
                Some(b) => {
                    lemma_balance_idx(t0.balances@, token, b as int);
                    assert(tnew.balances@ == t0.balances@.update(
                        b as int,
                        TokenBalance { token, amount: (t0.balances@[b as int].amount + amount) as i128 },
                    ));
                    assert forall|i: int, j: int|
                        0 <= i < j < tnew.balances@.len() implies tnew.balances@[i].token
                        != tnew.balances@[j].token by {
                        assert(tnew.balances@[i].token == t0.balances@[i].token);
                        assert(tnew.balances@[j].token == t0.balances@[j].token);
                    };
                },
                None => {
                    assert(tnew.balances@ == t0.balances@.push(TokenBalance { token, amount }));
                    assert forall|i: int, j: int|
                        0 <= i < j < tnew.balances@.len() implies tnew.balances@[i].token
                        != tnew.balances@[j].token by {
                        if j < tnew.balances@.len() - 1 {
                        } else {
                            assert(tnew.balances@[j].token == token);
                            assert(tnew.balances@[i] == t0.balances@[i]);
                        }
                    };
                },
            }
            assert forall|i: int| 0 <= i < tnew.balances@.len() implies (
            #[trigger] tnew.balances@[i]).amount >= 0 by {
                match bidx {
                    Some(b) => {
                        if i != b {
                            assert(tnew.balances@[i] == t0.balances@[i]);
                        }
                    },
                    None => {
                        if i < tnew.balances@.len() - 1 {
                            assert(tnew.balances@[i] == t0.balances@[i]);
                        }
                    },
                }
            };
            // conservation: the deposit credits exactly its token
            assert forall|tk: Option<u64>| #[trigger] spec_balance_of(tnew.balances@, tk)
                == net_flow(tnew.transactions@, tk) by {
                lemma_net_flow_push(t0.transactions@, txv, tk);
                assert(spec_balance_of(t0.balances@, tk) == net_flow(t0.transactions@, tk));
                self.lemma_deposit_balance_shift(t0, tnew, bidx, token, amount, tk);
            };
            assert(tnew.wf());
            assert forall|i: int| 0 <= i < self.treasuries@.len() implies (
            #[trigger] self.treasuries@[i]).wf() && self.treasuries@[i].id == i + 1
                && self.treasuries@[i].guild_id >= 1 by {
                if i != idx {
                    assert(self.treasuries@[i] == old(self).treasuries@[i]);
                }
            };
            self.lemma_deposit_balance_shift(t0, tnew, bidx, token, amount, token);
            assert forall|tk: Option<u64>| tk != token implies spec_balance_of(tnew.balances@, tk)
                == spec_balance_of(t0.balances@, tk) by {
                self.lemma_deposit_balance_shift(t0, tnew, bidx, token, amount, tk);
            };
        }
        Ok(true)
    }

    /// How the balance table looks after a deposit credit: the deposited
    /// token's entry grows by `amount`, every other token is untouched.
    proof fn lemma_deposit_balance_shift(
        self,
        t0: Treasury,
        tnew: Treasury,
        bidx: Option<usize>,
        token: Option<u64>,
        amount: i128,
        tk: Option<u64>,
    )
        requires
            balances_distinct(t0.balances@),
            balances_distinct(tnew.balances@),
            match bidx {
                Some(b) => 0 <= b < t0.balances@.len() && t0.balances@[b as int].token == token
                    && tnew.balances@ == t0.balances@.update(
                    b as int,
                    TokenBalance {
                        token,
                        amount: (t0.balances@[b as int].amount + amount) as i128,
                    },
                ) && t0.balances@[b as int].amount + amount <= i128::MAX && t0.balances@[b as int].amount
                    + amount >= i128::MIN,
                None => !has_balance(t0.balances@, token) && tnew.balances@ == t0.balances@.push(
                    TokenBalance { token, amount },
                ),
            },
        ensures
            spec_balance_of(tnew.balances@, token) == spec_balance_of(t0.balances@, token)
                + amount,
            tk != token ==> spec_balance_of(tnew.balances@, tk) == spec_balance_of(
                t0.balances@,
                tk,
            ),
    {
        match bidx {
            Some(b) => {
                lemma_balance_idx(t0.balances@, token, b as int);
                lemma_balance_idx(tnew.balances@, token, b as int);
                if tk != token {
                    if has_balance(t0.balances@, tk) {
                        let k = balance_idx(t0.balances@, tk);
                        lemma_balance_idx(t0.balances@, tk, k);
                        assert(k != b);
                        assert(tnew.balances@[k] == t0.balances@[k]);
                        lemma_balance_idx(tnew.balances@, tk, k);
                    } else {
                        if has_balance(tnew.balances@, tk) {
                            let k = balance_idx(tnew.balances@, tk);
                            assert(k != b);
                            assert(t0.balances@[k].token == tk);
                        }
                    }
                }
            },
            None => {
                let nb = t0.balances@.len() as int;
                assert(tnew.balances@[nb].token == token);
                lemma_balance_idx(tnew.balances@, token, nb);
                if tk != token {
                    if has_balance(t0.balances@, tk) {
                        let k = balance_idx(t0.balances@, tk);
                        lemma_balance_idx(t0.balances@, tk, k);
                        assert(tnew.balances@[k] == t0.balances@[k]);
                        lemma_balance_idx(tnew.balances@, tk, k);
                    } else {
                        if has_balance(tnew.balances@, tk) {
                            let k = balance_idx(tnew.balances@, tk);
                            if k < nb {
                                assert(t0.balances@[k].token == tk);
                            } else {
                                assert(tnew.balances@[k].token == token);
                            }
                        }
                    }
                }
            },
        }
    }

}


/// Find the budget entry of a category.
pub fn find_budget(budgets: &Vec<Budget>, cat: &String) -> (r: Option<usize>)
    ensures
        match r {
            Some(b) => b < budgets@.len() && budgets@[b as int].category@ == cat@,
            None => !has_budget(budgets@, cat@),
        },
{
    let mut i: usize = 0;
    while i < budgets.len()
        invariant
            i <= budgets@.len(),
            forall|j: int| 0 <= j < i ==> budgets@[j].category@ != cat@,
        decreases budgets@.len() - i,
    {
        if budgets[i].category == *cat {
            return Some(i);
        }
        i += 1;
    }
    None
}

/// Overwriting the amount of one balance entry changes that token's
/// balance to the new amount and no other.
pub proof fn lemma_balance_update_entry(
    b0: Seq<TokenBalance>,
    k: int,
    new_amt: i128,
    tk: Option<u64>,
)
    requires
        balances_distinct(b0),
        0 <= k < b0.len(),
    ensures
        balances_distinct(b0.update(k, TokenBalance { token: b0[k].token, amount: new_amt })),
        spec_balance_of(
            b0.update(k, TokenBalance { token: b0[k].token, amount: new_amt }),
            b0[k].token,
        ) == new_amt,
        tk != b0[k].token ==> spec_balance_of(
            b0.update(k, TokenBalance { token: b0[k].token, amount: new_amt }),
            tk,
        ) == spec_balance_of(b0, tk),
{
    let b1 = b0.update(k, TokenBalance { token: b0[k].token, amount: new_amt });
    assert forall|i: int, j: int| 0 <= i < j < b1.len() implies b1[i].token != b1[j].token by {
        assert(b1[i].token == b0[i].token);
        assert(b1[j].token == b0[j].token);
    };
    lemma_balance_idx(b1, b0[k].token, k);
    if tk != b0[k].token {
        if has_balance(b0, tk) {
            let m = balance_idx(b0, tk);
            lemma_balance_idx(b0, tk, m);
            assert(m != k);
            assert(b1[m] == b0[m]);
            lemma_balance_idx(b1, tk, m);
        } else {
            if has_balance(b1, tk) {
                let m = balance_idx(b1, tk);
                assert(b1[m].token == tk);
                assert(b0[m].token == b1[m].token);
            }
        }
    }
}

/// What proposing a withdrawal does: a Proposed Withdrawal entry is
/// appended, signed by the proposer, expiring 24 hours later; nothing else
/// of the treasury or the registry changes.
pub open spec fn spec_propose_withdrawal_post(
    pre: TreasuryRegistry,
    post: TreasuryRegistry,
    treasury_id: u64,
    proposer: Principal,
    recipient: Principal,
    amount: i128,
    token: Option<u64>,
    reason: Seq<char>,
    now: u64,
    r: Result<u64, Error>,
) -> bool {
    let t0 = pre.treasury_at(treasury_id);
    match r {
        Ok(id) => {
            &&& pre.has_treasury(treasury_id)
            &&& t0.signers@.contains(proposer)
            &&& !t0.paused
            &&& 0 < amount <= spec_balance_of(t0.balances@, token)
            &&& now + WITHDRAWAL_TIMEOUT <= u64::MAX
            &&& id == t0.transactions@.len() + 1
            &&& post.same_but_treasury(pre, treasury_id)
            &&& post.treasury_at(treasury_id).transactions@.len() == t0.transactions@.len() + 1
            &&& forall|i: int|
                0 <= i < t0.transactions@.len() ==> post.treasury_at(
                    treasury_id,
                ).transactions@[i] == t0.transactions@[i]
            &&& post.treasury_at(treasury_id).transactions@.last() == Transaction {
                id,
                tx_type: TransactionType::Withdrawal,
                amount,
                token,
                initiator: proposer,
                recipient: Some(recipient),
                reason: post.treasury_at(treasury_id).transactions@.last().reason,
                signatures: post.treasury_at(treasury_id).transactions@.last().signatures,
                status: TransactionStatus::Proposed,
                created_at: now,
                expires_at: (now + WITHDRAWAL_TIMEOUT) as u64,
            }
            &&& post.treasury_at(treasury_id).transactions@.last().reason@ == reason
            &&& post.treasury_at(treasury_id).transactions@.last().signatures@ == seq![proposer]
            &&& post.treasury_at(treasury_id).balances == t0.balances
            &&& post.treasury_at(treasury_id).budgets == t0.budgets
            &&& post.treasury_at(treasury_id).signers == t0.signers
            &&& post.treasury_at(treasury_id).threshold == t0.threshold
            &&& post.treasury_at(treasury_id).paused == t0.paused
            &&& post.treasury_at(treasury_id).allowances == t0.allowances
        },
        Err(e) => {
            &&& post == pre
            &&& match e {
                Error::NotFound => !pre.has_treasury(treasury_id),
                Error::Unauthorized => pre.has_treasury(treasury_id) && !t0.signers@.contains(
                    proposer,
                ),
                Error::BadState => pre.has_treasury(treasury_id) && t0.signers@.contains(proposer)
                    && t0.paused,
                Error::InvalidInput => pre.has_treasury(treasury_id) && t0.signers@.contains(
                    proposer,
                ) && !t0.paused && (amount <= 0 || amount > spec_balance_of(t0.balances@, token)
                    || now + WITHDRAWAL_TIMEOUT > u64::MAX),
                _ => false,
            }
        },
    }
}

impl TreasuryRegistry {
    /// After changing one treasury in a way that keeps it well-formed with
    /// the same id and guild, the registry stays well-formed.
    proof fn lemma_registry_wf_after_change(self, prev: TreasuryRegistry, idx: int)
        requires
            prev.wf(),
            self.treasuries@.len() == prev.treasuries@.len(),
            forall|i: int|
                0 <= i < self.treasuries@.len() && i != idx ==> self.treasuries@[i]
                    == prev.treasuries@[i],
            0 <= idx < self.treasuries@.len(),
            self.treasuries@[idx].wf(),
            self.treasuries@[idx].id == prev.treasuries@[idx].id,
            self.treasuries@[idx].guild_id == prev.treasuries@[idx].guild_id,
        ensures
            self.wf(),
    {
        assert forall|i: int| 0 <= i < self.treasuries@.len() implies (
        #[trigger] self.treasuries@[i]).wf() && self.treasuries@[i].id == i + 1
            && self.treasuries@[i].guild_id >= 1 by {
            if i != idx {
                assert(self.treasuries@[i] == prev.treasuries@[i]);
                assert(prev.treasuries@[i].wf());
            } else {
                assert(prev.treasuries@[idx].wf());
            }
        };
    }

    /// Propose a withdrawal: one treasury signer opens a Proposed
    /// Withdrawal entry covered by the current balance; it expires 24
    /// hours later and carries the proposer's signature.
    pub fn propose_withdrawal(
        &mut self,
        treasury_id: u64,
        proposer: Principal,
        recipient: Principal,
        amount: i128,
        token: Option<u64>,
        reason: String,
        now: u64,
    ) -> (r: Result<u64, Error>)
        requires
            old(self).wf(),
            old(self).has_treasury(treasury_id) ==> old(self).treasury_at(
                treasury_id,
            ).transactions@.len() < usize::MAX,
        ensures
            final(self).wf(),
            spec_propose_withdrawal_post(
                *old(self),
                *final(self),
                treasury_id,
                proposer,
                recipient,
                amount,
                token,
                reason@,
                now,
                r,
            ),
    {
        if !(treasury_id >= 1 && treasury_id <= self.treasuries.len() as u64) {
            return Err(Error::NotFound);
        }
        let idx = (treasury_id - 1) as usize;
        if !contains_principal(&self.treasuries[idx].signers, proposer) {
            return Err(Error::Unauthorized);
        }
        if self.treasuries[idx].paused {
            return Err(Error::BadState);
        }
        let ghost t0 = self.treasuries@[idx as int];
        if amount <= 0 {
            return Err(Error::InvalidInput);
        }
        let balance = match find_balance(&self.treasuries[idx].balances, token) {
            Some(b) => {
                proof {
                    assert(self.treasuries@[idx as int].wf());
                    lemma_balance_idx(t0.balances@, token, b as int);
                }
                self.treasuries[idx].balances[b].amount
            },
            None => 0,
        };
        if amount > balance {
            return Err(Error::InvalidInput);
        }
        let expires_at = match now.checked_add(WITHDRAWAL_TIMEOUT) {
            Some(t) => t,
            None => {
                return Err(Error::InvalidInput);
            },
        };
        let tx_id = (self.treasuries[idx].transactions.len() + 1) as u64;
        let mut signatures: Vec<Principal> = Vec::new();
        signatures.push(proposer);
        let tx = Transaction {
            id: tx_id,
            tx_type: TransactionType::Withdrawal,
            amount,
            token,
            initiator: proposer,
            recipient: Some(recipient),
            reason,
            signatures,
            status: TransactionStatus::Proposed,
            created_at: now,
            expires_at,
        };
        let t = &mut self.treasuries[idx];
        t.transactions.push(tx);
        proof {
            let tnew = self.treasuries@[idx as int];
            assert forall|i: int| 0 <= i < tnew.transactions@.len() implies (
            #[trigger] tnew.transactions@[i]).wf() && tnew.transactions@[i].id == i + 1 by {
                if i < tnew.transactions@.len() - 1 {
                    assert(tnew.transactions@[i] == t0.transactions@[i]);
                }
            };
            assert forall|tk: Option<u64>| #[trigger] spec_balance_of(tnew.balances@, tk)
                == net_flow(tnew.transactions@, tk) by {
                lemma_net_flow_push(t0.transactions@, tnew.transactions@.last(), tk);
                assert(spec_balance_of(t0.balances@, tk) == net_flow(t0.transactions@, tk));
            };
            assert(tnew.wf());
            self.lemma_registry_wf_after_change(*old(self), idx as int);
        }
        Ok(tx_id)
    }

    /// Propose a withdrawal behind the multisig gate: the named operation
    /// must be an executed TreasuryWithdrawal.
    pub fn ms_propose_treasury_withdrawal(
        &mut self,
        ms: &MultiSigRegistry,
        op_id: u64,
        treasury_id: u64,
        recipient: Principal,
        proposer: Principal,
        amount: i128,
        token: Option<u64>,
        reason: String,
        now: u64,
    ) -> (r: Result<u64, Error>)
        requires
            old(self).wf(),
            ms.wf(),
            old(self).has_treasury(treasury_id) ==> old(self).treasury_at(
                treasury_id,
            ).transactions@.len() < usize::MAX,
        ensures
            final(self).wf(),
            ({
                let gate_ok = ms.has_operation(op_id) && ms.operation_at(op_id).status
                    == crate::multisig::OperationStatus::Executed && ms.operation_at(
                    op_id,
                ).op_type == OperationType::TreasuryWithdrawal;
                match r {
                    Ok(_) => gate_ok && spec_propose_withdrawal_post(
                        *old(self),
                        *final(self),
                        treasury_id,
                        proposer,
                        recipient,
                        amount,
                        token,
                        reason@,
                        now,
                        r,
                    ),
                    Err(e) => {
                        ||| (!gate_ok && *final(self) == *old(self) && match e {
                            Error::NotFound => !ms.has_operation(op_id),
                            Error::BadState => ms.has_operation(op_id) && ms.operation_at(
                                op_id,
                            ).status != crate::multisig::OperationStatus::Executed,
                            Error::TypeMismatch => ms.has_operation(op_id) && ms.operation_at(
                                op_id,
                            ).status == crate::multisig::OperationStatus::Executed
                                && ms.operation_at(op_id).op_type
                                != OperationType::TreasuryWithdrawal,
                            _ => false,
                        })
                        ||| (gate_ok && spec_propose_withdrawal_post(
                            *old(self),
                            *final(self),
                            treasury_id,
                            proposer,
                            recipient,
                            amount,
                            token,
                            reason@,
                            now,
                            r,
                        ))
                    },
                }
            }),
    {
        match ms.ms_require_executed_operation(op_id, OperationType::TreasuryWithdrawal) {
            Ok(()) => {},
            Err(e) => {
                return Err(e);
            },
        }
        self.propose_withdrawal(treasury_id, proposer, recipient, amount, token, reason, now)
    }

    /// Sign a Proposed withdrawal; once the signature count reaches the
    /// treasury threshold the entry becomes Approved. An entry found past
    /// its expiry is persisted as Expired before the call fails.
    pub fn approve_transaction(&mut self, treasury_id: u64, tx_id: u64, signer: Principal, now: u64)
        -> (r: Result<(), Error>)
        requires
            old(self).wf(),
        ensures
            final(self).wf(),
            ({
                let t0 = old(self).treasury_at(treasury_id);
                let found = old(self).has_treasury(treasury_id) && 1 <= tx_id
                    <= t0.transactions@.len();
                let tx0 = t0.transactions@[tx_id - 1];
                match r {
                    Ok(()) => {
                        &&& found
                        &&& t0.signers@.contains(signer)
                        &&& tx0.status == TransactionStatus::Proposed
                        &&& now <= tx0.expires_at
                        &&& !tx0.signatures@.contains(signer)
                        &&& final(self).same_but_treasury(*old(self), treasury_id)
                        &&& final(self).treasury_at(treasury_id) == Treasury {
                            transactions: final(self).treasury_at(treasury_id).transactions,
                            ..t0
                        }
                        &&& final(self).treasury_at(treasury_id).transactions@
                            == t0.transactions@.update(
                            tx_id - 1,
                            final(self).treasury_at(treasury_id).transactions@[tx_id - 1],
                        )
                        &&& final(self).treasury_at(treasury_id).transactions@[tx_id - 1].signatures@
                            == tx0.signatures@.push(signer)
                        &&& final(self).treasury_at(treasury_id).transactions@[tx_id - 1].status
                            == (if tx0.signatures@.len() + 1 >= t0.threshold {
                            TransactionStatus::Approved
                        } else {
                            TransactionStatus::Proposed
                        })
                        &&& tx_congruent_but_sig_status(
                            final(self).treasury_at(treasury_id).transactions@[tx_id - 1],
                            tx0,
                        )
                    },
                    Err(e) => match e {
                        Error::NotFound => !found && *final(self) == *old(self),
                        Error::Unauthorized => found && !t0.signers@.contains(signer) && *final(self) == *old(self),
                        Error::BadState => found && t0.signers@.contains(signer) && tx0.status
                            != TransactionStatus::Proposed && *final(self) == *old(self),
                        Error::Timeout => {
                            &&& found
                            &&& t0.signers@.contains(signer)
                            &&& tx0.status == TransactionStatus::Proposed
                            &&& now > tx0.expires_at
                            &&& final(self).same_but_treasury(*old(self), treasury_id)
                            &&& final(self).treasury_at(treasury_id) == Treasury {
                                transactions: final(self).treasury_at(treasury_id).transactions,
                                ..t0
                            }
                            &&& final(self).treasury_at(treasury_id).transactions@
                                == t0.transactions@.update(
                                tx_id - 1,
                                Transaction { status: TransactionStatus::Expired, ..tx0 },
                            )
                        },
                        Error::DuplicateState => found && t0.signers@.contains(signer)
                            && tx0.status == TransactionStatus::Proposed && now <= tx0.expires_at
                            && tx0.signatures@.contains(signer) && *final(self) == *old(self),
                        _ => false,
                    },
                }
            }),
    {
        if !(treasury_id >= 1 && treasury_id <= self.treasuries.len() as u64) {
            return Err(Error::NotFound);
        }
        let idx = (treasury_id - 1) as usize;
        if !(tx_id >= 1 && tx_id <= self.treasuries[idx].transactions.len() as u64) {
            return Err(Error::NotFound);
        }
        let ti = (tx_id - 1) as usize;
        if !contains_principal(&self.treasuries[idx].signers, signer) {
            return Err(Error::Unauthorized);
        }
        let ghost t0 = self.treasuries@[idx as int];
        proof {
            assert(self.treasuries@[idx as int].wf());
            assert(t0.transactions@[ti as int].wf());
        }
        let ghost tx0 = t0.transactions@[ti as int];
        if !matches!(self.treasuries[idx].transactions[ti].status, TransactionStatus::Proposed) {
            return Err(Error::BadState);
        }
        if now > self.treasuries[idx].transactions[ti].expires_at {
            let t = &mut self.treasuries[idx];
            let txm = &mut t.transactions[ti];
            txm.status = TransactionStatus::Expired;
            proof {
                let tnew = self.treasuries@[idx as int];
                self.lemma_status_only_change_keeps_wf(*old(self), idx as int, ti as int);
            }
            return Err(Error::Timeout);
        }
        if contains_principal(&self.treasuries[idx].transactions[ti].signatures, signer) {
            return Err(Error::DuplicateState);
        }
        let new_count = self.treasuries[idx].transactions[ti].signatures.len() as u128 + 1;
        let approved = new_count >= self.treasuries[idx].threshold as u128;
        let t = &mut self.treasuries[idx];
        let txm = &mut t.transactions[ti];
        txm.signatures.push(signer);
        if approved {
            txm.status = TransactionStatus::Approved;
        }
        proof {
            let tnew = self.treasuries@[idx as int];
            let txn = tnew.transactions@[ti as int];
            assert(txn.signatures@ == tx0.signatures@.push(signer));
            assert forall|i: int, j: int| 0 <= i < j < txn.signatures@.len() implies
                txn.signatures@[i] != txn.signatures@[j] by {
                if j < txn.signatures@.len() - 1 {
                } else {
                    assert(txn.signatures@[j] == signer);
                    assert(txn.signatures@[i] == tx0.signatures@[i]);
                }
            };
            assert(txn.wf());
            self.lemma_status_only_change_keeps_wf(*old(self), idx as int, ti as int);
            assert(tnew.transactions@ =~= t0.transactions@.update(ti as int, txn));
        }
        Ok(())
    }

    /// After changing one ledger entry of one treasury in a way that keeps
    /// the entry well-formed, keeps its id, amount, token, and type, and
    /// keeps its contribution at zero (never Executed before or after),
    /// the registry stays well-formed.
    proof fn lemma_status_only_change_keeps_wf(self, prev: TreasuryRegistry, idx: int, ti: int)
        requires
            prev.wf(),
            self.treasuries@.len() == prev.treasuries@.len(),
            forall|i: int|
                0 <= i < self.treasuries@.len() && i != idx ==> self.treasuries@[i]
                    == prev.treasuries@[i],
            0 <= idx < self.treasuries@.len(),
            0 <= ti < prev.treasuries@[idx].transactions@.len(),
            self.treasuries@[idx] == (Treasury {
                transactions: self.treasuries@[idx].transactions,
                ..prev.treasuries@[idx]
            }),
            self.treasuries@[idx].transactions@.len() == prev.treasuries@[idx].transactions@.len(),
            forall|i: int|
                0 <= i < self.treasuries@[idx].transactions@.len() && i != ti
                    ==> self.treasuries@[idx].transactions@[i]
                    == prev.treasuries@[idx].transactions@[i],
            self.treasuries@[idx].transactions@[ti].wf(),
            self.treasuries@[idx].transactions@[ti].id
                == prev.treasuries@[idx].transactions@[ti].id,
            self.treasuries@[idx].transactions@[ti].status != TransactionStatus::Executed,
            prev.treasuries@[idx].transactions@[ti].status != TransactionStatus::Executed,
        ensures
            self.wf(),
    {
        let t0 = prev.treasuries@[idx];
        let tnew = self.treasuries@[idx];
        assert forall|i: int| 0 <= i < tnew.transactions@.len() implies (
        #[trigger] tnew.transactions@[i]).wf() && tnew.transactions@[i].id == i + 1 by {
            if i != ti {
                assert(tnew.transactions@[i] == t0.transactions@[i]);
                assert(t0.transactions@[i].wf());
            } else {
                assert(t0.transactions@[ti].wf());
            }
        };
        assert forall|tk: Option<u64>| #[trigger] spec_balance_of(tnew.balances@, tk) == net_flow(
            tnew.transactions@,
            tk,
        ) by {
            assert(tnew.transactions@ =~= t0.transactions@.update(
                ti,
                tnew.transactions@[ti],
            ));
            lemma_net_flow_update(t0.transactions@, ti, tnew.transactions@[ti], tk);
            assert(tx_contrib(t0.transactions@[ti], tk) == 0);
            assert(tx_contrib(tnew.transactions@[ti], tk) == 0);
            assert(spec_balance_of(t0.balances@, tk) == net_flow(t0.transactions@, tk));
        };
        assert(tnew.wf());
        self.lemma_registry_wf_after_change(prev, idx);
    }
}

/// Two ledger entries agree on everything but status and signatures.
pub open spec fn tx_congruent_but_sig_status(a: Transaction, b: Transaction) -> bool {
    &&& a.id == b.id
    &&& a.tx_type == b.tx_type
    &&& a.amount == b.amount
    &&& a.token == b.token
    &&& a.initiator == b.initiator
    &&& a.recipient == b.recipient
    &&& a.reason == b.reason
    &&& a.created_at == b.created_at
    &&& a.expires_at == b.expires_at
}


impl TreasuryRegistry {
    /// Execute an Approved withdrawal: the executor must be a signer, the
    /// treasury unpaused, the entry unexpired, the withdrawal inside the
    /// category budget for the current window, and covered by the balance.
    /// On success the entry becomes Executed, the balance is debited, and
    /// the budget's window spending grows by the amount.
    pub fn execute_transaction(&mut self, treasury_id: u64, tx_id: u64, executor: Principal, now: u64)
        -> (r: Result<(), Error>)
        requires
            old(self).wf(),
        ensures
            final(self).wf(),
            ({
                let t0 = old(self).treasury_at(treasury_id);
                let found = old(self).has_treasury(treasury_id) && 1 <= tx_id
                    <= t0.transactions@.len();
                let tx0 = t0.transactions@[tx_id - 1];
                let cat = spec_category(TransactionType::Withdrawal);
                let has_b = has_budget(t0.budgets@, cat);
                let bi = budget_idx(t0.budgets@, cat);
                let bud = t0.budgets@[bi];
                let rolled = now >= bud.window_start + bud.window_seconds;
                let base = if rolled {
                    0
                } else {
                    bud.spent as int
                };
                let budget_ok = !has_b || tx0.amount <= bud.limit - base;
                let balance_ok = tx0.amount <= spec_balance_of(t0.balances@, tx0.token);
                match r {
                    Ok(()) => {
                        &&& found
                        &&& t0.signers@.contains(executor)
                        &&& !t0.paused
                        &&& tx0.status == TransactionStatus::Approved
                        &&& now <= tx0.expires_at
                        &&& budget_ok
                        &&& balance_ok
                        &&& final(self).same_but_treasury(*old(self), treasury_id)
                        &&& final(self).treasury_at(treasury_id) == (Treasury {
                            transactions: final(self).treasury_at(treasury_id).transactions,
                            balances: final(self).treasury_at(treasury_id).balances,
                            budgets: final(self).treasury_at(treasury_id).budgets,
                            ..t0
                        })
                        &&& final(self).treasury_at(treasury_id).transactions@
                            == t0.transactions@.update(
                            tx_id - 1,
                            (Transaction { status: TransactionStatus::Executed, ..tx0 }),
                        )
                        &&& spec_balance_of(
                            final(self).treasury_at(treasury_id).balances@,
                            tx0.token,
                        ) == spec_balance_of(t0.balances@, tx0.token) - tx0.amount
                        &&& forall|tk: Option<u64>|
                            tk != tx0.token ==> spec_balance_of(
                                final(self).treasury_at(treasury_id).balances@,
                                tk,
                            ) == spec_balance_of(t0.balances@, tk)
                        &&& if has_b {
                            final(self).treasury_at(treasury_id).budgets@ == t0.budgets@.update(
                                bi,
                                (Budget {
                                    spent: (base + tx0.amount) as i128,
                                    window_start: if rolled {
                                        now
                                    } else {
                                        bud.window_start
                                    },
                                    ..bud
                                }),
                            ) && base + tx0.amount <= bud.limit
                        } else {
                            final(self).treasury_at(treasury_id).budgets == t0.budgets
                        }
                    },
                    Err(e) => match e {
                        Error::NotFound => !found && *final(self) == *old(self),
                        Error::Unauthorized => found && !t0.signers@.contains(executor) && *final(self)
                            == *old(self),
                        Error::BadState => found && t0.signers@.contains(executor) && (t0.paused
                            || tx0.status != TransactionStatus::Approved) && *final(self) == *old(
                            self,
                        ),
                        Error::Timeout => {
                            &&& found
                            &&& t0.signers@.contains(executor)
                            &&& !t0.paused
                            &&& tx0.status == TransactionStatus::Approved
                            &&& now > tx0.expires_at
                            &&& final(self).same_but_treasury(*old(self), treasury_id)
                            &&& final(self).treasury_at(treasury_id) == (Treasury {
                                transactions: final(self).treasury_at(treasury_id).transactions,
                                ..t0
                            })
                            &&& final(self).treasury_at(treasury_id).transactions@
                                == t0.transactions@.update(
                                tx_id - 1,
                                (Transaction { status: TransactionStatus::Expired, ..tx0 }),
                            )
                        },
                        Error::InvariantViolation => {
                            &&& found
                            &&& t0.signers@.contains(executor)
                            &&& !t0.paused
                            &&& tx0.status == TransactionStatus::Approved
                            &&& now <= tx0.expires_at
                            &&& (!budget_ok || !balance_ok)
                            &&& *final(self) == *old(self)
                        },
                        _ => false,
                    },
                }
            }),
    {
        if !(treasury_id >= 1 && treasury_id <= self.treasuries.len() as u64) {
            return Err(Error::NotFound);
        }
        let idx = (treasury_id - 1) as usize;
        if !(tx_id >= 1 && tx_id <= self.treasuries[idx].transactions.len() as u64) {
            return Err(Error::NotFound);
        }
        let ti = (tx_id - 1) as usize;
        if !contains_principal(&self.treasuries[idx].signers, executor) {
            return Err(Error::Unauthorized);
        }
        let ghost t0 = self.treasuries@[idx as int];
        proof {
            assert(self.treasuries@[idx as int].wf());
            assert(t0.transactions@[ti as int].wf());
        }
        let ghost tx0 = t0.transactions@[ti as int];
        if self.treasuries[idx].paused || !matches!(
            self.treasuries[idx].transactions[ti].status,
            TransactionStatus::Approved,
        ) {
            return Err(Error::BadState);
        }
        if now > self.treasuries[idx].transactions[ti].expires_at {
            let t = &mut self.treasuries[idx];
            let txm = &mut t.transactions[ti];
            txm.status = TransactionStatus::Expired;
            proof {
                self.lemma_status_only_change_keeps_wf(*old(self), idx as int, ti as int);
            }
            return Err(Error::Timeout);
        }
        let amount = self.treasuries[idx].transactions[ti].amount;
        let token = self.treasuries[idx].transactions[ti].token;
        let cat = category_of(TransactionType::Withdrawal);
        let bidx = find_budget(&self.treasuries[idx].budgets, &cat);
        let mut rolled = false;
        let mut base: i128 = 0;
        match bidx {
            Some(b) => {
                proof {
                    lemma_budget_idx(t0.budgets@, cat@, b as int);
                }
                let ws = self.treasuries[idx].budgets[b].window_start;
                let wsec = self.treasuries[idx].budgets[b].window_seconds;
                rolled = match ws.checked_add(wsec) {
                    Some(e) => now >= e,
                    None => false,
                };
                base = if rolled {
                    0
                } else {
                    self.treasuries[idx].budgets[b].spent
                };
                if amount > self.treasuries[idx].budgets[b].limit - base {
                    return Err(Error::InvariantViolation);
                }
            },
            None => {},
        }
        let bbal = find_balance(&self.treasuries[idx].balances, token);
        let current: i128 = match bbal {
            Some(bb) => {
                proof {
                    lemma_balance_idx(t0.balances@, token, bb as int);
                }
                self.treasuries[idx].balances[bb].amount
            },
            None => 0,
        };
        if amount > current {
            return Err(Error::InvariantViolation);
        }
        let bb = match bbal {
            Some(bb) => bb,
            None => {
                proof {
                    assert(false);
                }
                0
            },
        };
        let t = &mut self.treasuries[idx];
        let txm = &mut t.transactions[ti];
        txm.status = TransactionStatus::Executed;
        let bm = &mut t.balances[bb];
        bm.amount = bm.amount - amount;
        match bidx {
            Some(b) => {
                let bu = &mut t.budgets[b];
                bu.spent = base + amount;
                if rolled {
                    bu.window_start = now;
                }
            },
            None => {},
        }
        proof {
            let tnew = self.treasuries@[idx as int];
            let txn = tnew.transactions@[ti as int];
            assert(txn == (Transaction { status: TransactionStatus::Executed, ..tx0 }));
            assert(tnew.transactions@ =~= t0.transactions@.update(ti as int, txn));
            assert forall|i: int| 0 <= i < tnew.transactions@.len() implies (
            #[trigger] tnew.transactions@[i]).wf() && tnew.transactions@[i].id == i + 1 by {
                if i != ti {
                    assert(tnew.transactions@[i] == t0.transactions@[i]);
                    assert(t0.transactions@[i].wf());
                }
            };
            // balances
            lemma_balance_idx(t0.balances@, token, bb as int);
            assert(tnew.balances@ =~= t0.balances@.update(
                bb as int,
                (TokenBalance { token, amount: (current - amount) as i128 }),
            ));
            assert forall|tk: Option<u64>| #[trigger] spec_balance_of(tnew.balances@, tk)
                == net_flow(tnew.transactions@, tk) by {
                lemma_net_flow_update(t0.transactions@, ti as int, txn, tk);
                lemma_balance_update_entry(t0.balances@, bb as int, (current - amount) as i128, tk);
                assert(spec_balance_of(t0.balances@, tk) == net_flow(t0.transactions@, tk));
            };
            lemma_balance_update_entry(t0.balances@, bb as int, (current - amount) as i128, token);
            assert forall|tk: Option<u64>| tk != token implies spec_balance_of(tnew.balances@, tk)
                == spec_balance_of(t0.balances@, tk) by {
                lemma_balance_update_entry(t0.balances@, bb as int, (current - amount) as i128, tk);
            };
            assert forall|i: int, j: int|
                0 <= i < j < tnew.balances@.len() implies tnew.balances@[i].token
                != tnew.balances@[j].token by {
                assert(tnew.balances@[i].token == t0.balances@[i].token);
                assert(tnew.balances@[j].token == t0.balances@[j].token);
            };
            assert forall|i: int| 0 <= i < tnew.balances@.len() implies (
            #[trigger] tnew.balances@[i]).amount >= 0 by {
                if i != bb {
                    assert(tnew.balances@[i] == t0.balances@[i]);
                }
            };
            // budgets
            match bidx {
                Some(b) => {
                    assert(tnew.budgets@ =~= t0.budgets@.update(
                        b as int,
                        tnew.budgets@[b as int],
                    ));
                    assert forall|i: int, j: int|
                        0 <= i < j < tnew.budgets@.len() implies tnew.budgets@[i].category@
                        != tnew.budgets@[j].category@ by {
                        assert(tnew.budgets@[i].category == t0.budgets@[i].category);
                        assert(tnew.budgets@[j].category == t0.budgets@[j].category);
                    };
                    assert forall|i: int| 0 <= i < tnew.budgets@.len() implies 0 <= (
                    #[trigger] tnew.budgets@[i]).spent <= tnew.budgets@[i].limit
                        && tnew.budgets@[i].window_seconds >= 1 by {
                        if i != b {
                            assert(tnew.budgets@[i] == t0.budgets@[i]);
                        }
                    };
                },
                None => {
                    assert(tnew.budgets@ == t0.budgets@);
                },
            }
            assert(tnew.wf());
            self.lemma_registry_wf_after_change(*old(self), idx as int);
        }
        Ok(())
    }

    /// Record or replace the spending budget of a category, on behalf of a
    /// treasury signer or a guild Owner. The window restarts at `now` with
    /// nothing spent.
    pub fn set_budget(
        &mut self,
        guilds: &GuildRegistry,
        treasury_id: u64,
        category: String,
        limit: i128,
        window_seconds: u64,
        caller: Principal,
        now: u64,
    ) -> (r: Result<(), Error>)
        requires
            old(self).wf(),
            guilds.wf(),
            old(self).has_treasury(treasury_id) ==> old(self).treasury_at(treasury_id).budgets@.len()
                < usize::MAX,
        ensures
            final(self).wf(),
            ({
                let t0 = old(self).treasury_at(treasury_id);
                let authorized = t0.signers@.contains(caller) || guilds.spec_has_permission(
                    t0.guild_id,
                    caller,
                    Role::Owner,
                );
                match r {
                    Ok(()) => {
                        &&& old(self).has_treasury(treasury_id)
                        &&& authorized
                        &&& limit >= 0
                        &&& window_seconds >= 1
                        &&& final(self).same_but_treasury(*old(self), treasury_id)
                        &&& final(self).treasury_at(treasury_id) == (Treasury {
                            budgets: final(self).treasury_at(treasury_id).budgets,
                            ..t0
                        })
                        &&& final(self).treasury_at(treasury_id).budgets@ == (if has_budget(
                            t0.budgets@,
                            category@,
                        ) {
                            t0.budgets@.update(
                                budget_idx(t0.budgets@, category@),
                                (Budget {
                                    category,
                                    limit,
                                    window_seconds,
                                    spent: 0,
                                    window_start: now,
                                }),
                            )
                        } else {
                            t0.budgets@.push(
                                (Budget {
                                    category,
                                    limit,
                                    window_seconds,
                                    spent: 0,
                                    window_start: now,
                                }),
                            )
                        })
                    },
                    Err(e) => {
                        &&& *final(self) == *old(self)
                        &&& match e {
                            Error::NotFound => !old(self).has_treasury(treasury_id),
                            Error::Unauthorized => old(self).has_treasury(treasury_id)
                                && !authorized,
                            Error::InvalidInput => old(self).has_treasury(treasury_id) && authorized
                                && (limit < 0 || window_seconds < 1),
                            _ => false,
                        }
                    },
                }
            }),
    {
        if !(treasury_id >= 1 && treasury_id <= self.treasuries.len() as u64) {
            return Err(Error::NotFound);
        }
        let idx = (treasury_id - 1) as usize;
        let guild_id = self.treasuries[idx].guild_id;
        if !contains_principal(&self.treasuries[idx].signers, caller) && !guilds.has_permission(
            guild_id,
            caller,
            Role::Owner,
        ) {
            return Err(Error::Unauthorized);
        }
        if limit < 0 || window_seconds < 1 {
            return Err(Error::InvalidInput);
        }
        let ghost t0 = self.treasuries@[idx as int];
        proof {
            assert(self.treasuries@[idx as int].wf());
        }
        let entry = Budget { category, limit, window_seconds, spent: 0, window_start: now };
        let bidx = find_budget(&self.treasuries[idx].budgets, &entry.category);
        let t = &mut self.treasuries[idx];
        match bidx {
            Some(b) => {
                proof {
                    lemma_budget_idx(t0.budgets@, entry.category@, b as int);
                }
                let slot = &mut t.budgets[b];
                *slot = entry;
            },
            None => {
                t.budgets.push(entry);
            },
        }
        proof {
            let tnew = self.treasuries@[idx as int];
            let n0 = t0.budgets@.len() as int;
            assert forall|i: int, j: int|
                0 <= i < j < tnew.budgets@.len() implies tnew.budgets@[i].category@
                != tnew.budgets@[j].category@ by {
                match bidx {
                    Some(b) => {
                        if i != b {
                            assert(tnew.budgets@[i] == t0.budgets@[i]);
                        }
                        if j != b {
                            assert(tnew.budgets@[j] == t0.budgets@[j]);
                        }
                        if i == b {
                            assert(tnew.budgets@[i].category@ == t0.budgets@[b as int].category@);
                        }
                        if j == b {
                            assert(tnew.budgets@[j].category@ == t0.budgets@[b as int].category@);
                        }
                    },
                    None => {
                        if j < n0 {
                            assert(tnew.budgets@[i] == t0.budgets@[i]);
                            assert(tnew.budgets@[j] == t0.budgets@[j]);
                        } else {
                            assert(tnew.budgets@[i] == t0.budgets@[i]);
                        }
                    },
                }
            };
            assert forall|i: int| 0 <= i < tnew.budgets@.len() implies 0 <= (
            #[trigger] tnew.budgets@[i]).spent <= tnew.budgets@[i].limit
                && tnew.budgets@[i].window_seconds >= 1 by {
                match bidx {
                    Some(b) => {
                        if i != b {
                            assert(tnew.budgets@[i] == t0.budgets@[i]);
                        }
                    },
                    None => {
                        if i < n0 {
                            assert(tnew.budgets@[i] == t0.budgets@[i]);
                        }
                    },
                }
            };
            assert forall|tk: Option<u64>| #[trigger] spec_balance_of(tnew.balances@, tk)
                == net_flow(tnew.transactions@, tk) by {
                assert(spec_balance_of(t0.balances@, tk) == net_flow(t0.transactions@, tk));
            };
            assert(tnew.wf());
            self.lemma_registry_wf_after_change(*old(self), idx as int);
        }
        Ok(())
    }

    /// Grant a standing allowance to a recipient: recorded in the
    /// allowance table and as an Executed AllowanceGrant ledger entry,
    /// which moves no balance.
    pub fn grant_allowance(
        &mut self,
        treasury_id: u64,
        caller: Principal,
        recipient: Principal,
        amount: i128,
        token: Option<u64>,
        now: u64,
    ) -> (r: Result<u64, Error>)
        requires
            old(self).wf(),
            old(self).has_treasury(treasury_id) ==> old(self).treasury_at(
                treasury_id,
            ).transactions@.len() < usize::MAX && old(self).treasury_at(
                treasury_id,
            ).allowances@.len() < usize::MAX,
        ensures
            final(self).wf(),
            ({
                let t0 = old(self).treasury_at(treasury_id);
                match r {
                    Ok(id) => {
                        &&& old(self).has_treasury(treasury_id)
                        &&& t0.signers@.contains(caller)
                        &&& !t0.paused
                        &&& amount > 0
                        &&& id == t0.transactions@.len() + 1
                        &&& final(self).same_but_treasury(*old(self), treasury_id)
                        &&& final(self).treasury_at(treasury_id).allowances@ == t0.allowances@.push(
                            (Allowance { recipient, amount, token, granted_at: now }),
                        )
                        &&& final(self).treasury_at(treasury_id).transactions@.len()
                            == t0.transactions@.len() + 1
                        &&& forall|i: int|
                            0 <= i < t0.transactions@.len() ==> final(self).treasury_at(
                                treasury_id,
                            ).transactions@[i] == t0.transactions@[i]
                        &&& final(self).treasury_at(treasury_id).transactions@.last().tx_type
                            == TransactionType::AllowanceGrant
                        &&& final(self).treasury_at(treasury_id).transactions@.last().status
                            == TransactionStatus::Executed
                        &&& final(self).treasury_at(treasury_id).transactions@.last().amount
                            == amount
                        &&& final(self).treasury_at(treasury_id).balances == t0.balances
                        &&& final(self).treasury_at(treasury_id).budgets == t0.budgets
                    },
                    Err(e) => {
                        &&& *final(self) == *old(self)
                        &&& match e {
                            Error::NotFound => !old(self).has_treasury(treasury_id),
                            Error::Unauthorized => old(self).has_treasury(treasury_id)
                                && !t0.signers@.contains(caller),
                            Error::BadState => old(self).has_treasury(treasury_id)
                                && t0.signers@.contains(caller) && t0.paused,
                            Error::InvalidInput => old(self).has_treasury(treasury_id)
                                && t0.signers@.contains(caller) && !t0.paused && amount <= 0,
                            _ => false,
                        }
                    },
                }
            }),
    {
        if !(treasury_id >= 1 && treasury_id <= self.treasuries.len() as u64) {
            return Err(Error::NotFound);
        }
        let idx = (treasury_id - 1) as usize;
        if !contains_principal(&self.treasuries[idx].signers, caller) {
            return Err(Error::Unauthorized);
        }
        if self.treasuries[idx].paused {
            return Err(Error::BadState);
        }
        if amount <= 0 {
            return Err(Error::InvalidInput);
        }
        let ghost t0 = self.treasuries@[idx as int];
        proof {
            assert(self.treasuries@[idx as int].wf());
        }
        let tx_id = (self.treasuries[idx].transactions.len() + 1) as u64;
        let mut signatures: Vec<Principal> = Vec::new();
        signatures.push(caller);
        let tx = Transaction {
            id: tx_id,
            tx_type: TransactionType::AllowanceGrant,
            amount,
            token,
            initiator: caller,
            recipient: Some(recipient),
            reason: String::new(),
            signatures,
            status: TransactionStatus::Executed,
            created_at: now,
            expires_at: now,
        };
        let t = &mut self.treasuries[idx];
        t.transactions.push(tx);
        t.allowances.push(Allowance { recipient, amount, token, granted_at: now });
        proof {
            let tnew = self.treasuries@[idx as int];
            assert forall|i: int| 0 <= i < tnew.transactions@.len() implies (
            #[trigger] tnew.transactions@[i]).wf() && tnew.transactions@[i].id == i + 1 by {
                if i < tnew.transactions@.len() - 1 {
                    assert(tnew.transactions@[i] == t0.transactions@[i]);
                }
            };
            assert forall|tk: Option<u64>| #[trigger] spec_balance_of(tnew.balances@, tk)
                == net_flow(tnew.transactions@, tk) by {
                lemma_net_flow_push(t0.transactions@, tnew.transactions@.last(), tk);
                assert(spec_balance_of(t0.balances@, tk) == net_flow(t0.transactions@, tk));
            };
            assert(tnew.wf());
            self.lemma_registry_wf_after_change(*old(self), idx as int);
        }
        Ok(tx_id)
    }

    /// Pay a milestone directly: a signer-initiated, immediately Executed
    /// payment, debiting the balance under the milestone category budget.
    pub fn execute_milestone_payment(
        &mut self,
        treasury_id: u64,
        caller: Principal,
        recipient: Principal,
        amount: i128,
        token: Option<u64>,
        reason: String,
        now: u64,
    ) -> (r: Result<u64, Error>)
        requires
            old(self).wf(),
            old(self).has_treasury(treasury_id) ==> old(self).treasury_at(
                treasury_id,
            ).transactions@.len() < usize::MAX,
        ensures
            final(self).wf(),
            ({
                let t0 = old(self).treasury_at(treasury_id);
                let cat = spec_category(TransactionType::MilestonePayment);
                let has_b = has_budget(t0.budgets@, cat);
                let bi = budget_idx(t0.budgets@, cat);
                let bud = t0.budgets@[bi];
                let rolled = now >= bud.window_start + bud.window_seconds;
                let base = if rolled {
                    0
                } else {
                    bud.spent as int
                };
                let budget_ok = !has_b || amount <= bud.limit - base;
                let balance_ok = amount <= spec_balance_of(t0.balances@, token);
                match r {
                    Ok(id) => {
                        &&& old(self).has_treasury(treasury_id)
                        &&& t0.signers@.contains(caller)
                        &&& !t0.paused
                        &&& amount > 0
                        &&& budget_ok
                        &&& balance_ok
                        &&& id == t0.transactions@.len() + 1
                        &&& final(self).same_but_treasury(*old(self), treasury_id)
                        &&& final(self).treasury_at(treasury_id).transactions@.len()
                            == t0.transactions@.len() + 1
                        &&& forall|i: int|
                            0 <= i < t0.transactions@.len() ==> final(self).treasury_at(
                                treasury_id,
                            ).transactions@[i] == t0.transactions@[i]
                        &&& final(self).treasury_at(treasury_id).transactions@.last().tx_type
                            == TransactionType::MilestonePayment
                        &&& final(self).treasury_at(treasury_id).transactions@.last().status
                            == TransactionStatus::Executed
                        &&& final(self).treasury_at(treasury_id).transactions@.last().amount
                            == amount
                        &&& final(self).treasury_at(treasury_id).transactions@.last().token == token
                        &&& final(self).treasury_at(treasury_id).transactions@.last().recipient
                            == Some(recipient)
                        &&& spec_balance_of(final(self).treasury_at(treasury_id).balances@, token)
                            == spec_balance_of(t0.balances@, token) - amount
                        &&& forall|tk: Option<u64>|
                            tk != token ==> spec_balance_of(
                                final(self).treasury_at(treasury_id).balances@,
                                tk,
                            ) == spec_balance_of(t0.balances@, tk)
                        &&& if has_b {
                            final(self).treasury_at(treasury_id).budgets@ == t0.budgets@.update(
                                bi,
                                (Budget {
                                    spent: (base + amount) as i128,
                                    window_start: if rolled {
                                        now
                                    } else {
                                        bud.window_start
                                    },
                                    ..bud
                                }),
                            ) && base + amount <= bud.limit
                        } else {
                            final(self).treasury_at(treasury_id).budgets == t0.budgets
                        }
                    },
                    Err(e) => {
                        &&& *final(self) == *old(self)
                        &&& match e {
                            Error::NotFound => !old(self).has_treasury(treasury_id),
                            Error::Unauthorized => old(self).has_treasury(treasury_id)
                                && !t0.signers@.contains(caller),
                            Error::BadState => old(self).has_treasury(treasury_id)
                                && t0.signers@.contains(caller) && t0.paused,
                            Error::InvalidInput => old(self).has_treasury(treasury_id)
                                && t0.signers@.contains(caller) && !t0.paused && amount <= 0,
                            Error::InvariantViolation => old(self).has_treasury(treasury_id)
                                && t0.signers@.contains(caller) && !t0.paused && amount > 0 && (
                            !budget_ok || !balance_ok),
                            _ => false,
                        }
                    },
                }
            }),
    {
        if !(treasury_id >= 1 && treasury_id <= self.treasuries.len() as u64) {
            return Err(Error::NotFound);
        }
        let idx = (treasury_id - 1) as usize;
        if !contains_principal(&self.treasuries[idx].signers, caller) {
            return Err(Error::Unauthorized);
        }
        if self.treasuries[idx].paused {
            return Err(Error::BadState);
        }
        if amount <= 0 {
            return Err(Error::InvalidInput);
        }
        let ghost t0 = self.treasuries@[idx as int];
        proof {
            assert(self.treasuries@[idx as int].wf());
        }
        let cat = category_of(TransactionType::MilestonePayment);
        let bidx = find_budget(&self.treasuries[idx].budgets, &cat);
        let mut rolled = false;
        let mut base: i128 = 0;
        match bidx {
            Some(b) => {
                proof {
                    lemma_budget_idx(t0.budgets@, cat@, b as int);
                }
                let ws = self.treasuries[idx].budgets[b].window_start;
                let wsec = self.treasuries[idx].budgets[b].window_seconds;
                rolled = match ws.checked_add(wsec) {
                    Some(e) => now >= e,
                    None => false,
                };
                base = if rolled {
                    0
                } else {
                    self.treasuries[idx].budgets[b].spent
                };
                if amount > self.treasuries[idx].budgets[b].limit - base {
                    return Err(Error::InvariantViolation);
                }
            },
            None => {},
        }
        let bbal = find_balance(&self.treasuries[idx].balances, token);
        let current: i128 = match bbal {
            Some(bb) => {
                proof {
                    lemma_balance_idx(t0.balances@, token, bb as int);
                }
                self.treasuries[idx].balances[bb].amount
            },
            None => 0,
        };
        if amount > current {
            return Err(Error::InvariantViolation);
        }
        let bb = match bbal {
            Some(bb) => bb,
            None => {
                proof {
                    assert(false);
                }
                0
            },
        };
        let tx_id = (self.treasuries[idx].transactions.len() + 1) as u64;
        let mut signatures: Vec<Principal> = Vec::new();
        signatures.push(caller);
        let tx = Transaction {
            id: tx_id,
            tx_type: TransactionType::MilestonePayment,
            amount,
            token,
            initiator: caller,
            recipient: Some(recipient),
            reason,
            signatures,
            status: TransactionStatus::Executed,
            created_at: now,
            expires_at: now,
        };
        let t = &mut self.treasuries[idx];
        t.transactions.push(tx);
        let bm = &mut t.balances[bb];
        bm.amount = bm.amount - amount;
        match bidx {
            Some(b) => {
                let bu = &mut t.budgets[b];
                bu.spent = base + amount;
                if rolled {
                    bu.window_start = now;
                }
            },
            None => {},
        }
        proof {
            let tnew = self.treasuries@[idx as int];
            let txn = tnew.transactions@.last();
            assert forall|i: int| 0 <= i < tnew.transactions@.len() implies (
            #[trigger] tnew.transactions@[i]).wf() && tnew.transactions@[i].id == i + 1 by {
                if i < tnew.transactions@.len() - 1 {
                    assert(tnew.transactions@[i] == t0.transactions@[i]);
                }
            };
            lemma_balance_idx(t0.balances@, token, bb as int);
            assert(tnew.balances@ =~= t0.balances@.update(
                bb as int,
                (TokenBalance { token, amount: (current - amount) as i128 }),
            ));
            assert forall|tk: Option<u64>| #[trigger] spec_balance_of(tnew.balances@, tk)
                == net_flow(tnew.transactions@, tk) by {
                lemma_net_flow_push(t0.transactions@, txn, tk);
                lemma_balance_update_entry(t0.balances@, bb as int, (current - amount) as i128, tk);
                assert(spec_balance_of(t0.balances@, tk) == net_flow(t0.transactions@, tk));
            };
            lemma_balance_update_entry(t0.balances@, bb as int, (current - amount) as i128, token);
            assert forall|tk: Option<u64>| tk != token implies spec_balance_of(tnew.balances@, tk)
                == spec_balance_of(t0.balances@, tk) by {
                lemma_balance_update_entry(t0.balances@, bb as int, (current - amount) as i128, tk);
            };
            assert forall|i: int, j: int|
                0 <= i < j < tnew.balances@.len() implies tnew.balances@[i].token
                != tnew.balances@[j].token by {
                assert(tnew.balances@[i].token == t0.balances@[i].token);
                assert(tnew.balances@[j].token == t0.balances@[j].token);
            };
            assert forall|i: int| 0 <= i < tnew.balances@.len() implies (
            #[trigger] tnew.balances@[i]).amount >= 0 by {
                if i != bb {
                    assert(tnew.balances@[i] == t0.balances@[i]);
                }
            };
            match bidx {
                Some(b) => {
                    assert(tnew.budgets@ =~= t0.budgets@.update(
                        b as int,
                        tnew.budgets@[b as int],
                    ));
                    assert forall|i: int, j: int|
                        0 <= i < j < tnew.budgets@.len() implies tnew.budgets@[i].category@
                        != tnew.budgets@[j].category@ by {
                        assert(tnew.budgets@[i].category == t0.budgets@[i].category);
                        assert(tnew.budgets@[j].category == t0.budgets@[j].category);
                    };
                    assert forall|i: int| 0 <= i < tnew.budgets@.len() implies 0 <= (
                    #[trigger] tnew.budgets@[i]).spent <= tnew.budgets@[i].limit
                        && tnew.budgets@[i].window_seconds >= 1 by {
                        if i != b {
                            assert(tnew.budgets@[i] == t0.budgets@[i]);
                        }
                    };
                },
                None => {
                    assert(tnew.budgets@ == t0.budgets@);
                },
            }
            assert(tnew.wf());
            self.lemma_registry_wf_after_change(*old(self), idx as int);
        }
        Ok(tx_id)
    }

    /// The newest `limit` ledger entries, oldest first. Each element
    /// carries the same data as the stored entry.
    pub fn get_transaction_history(&self, treasury_id: u64, limit: u32) -> (r: Vec<Transaction>)
        requires
            self.wf(),
        ensures
            !self.has_treasury(treasury_id) ==> r@.len() == 0,
            self.has_treasury(treasury_id) ==> {
                let txs = self.treasury_at(treasury_id).transactions@;
                let skip = if txs.len() <= limit {
                    0int
                } else {
                    txs.len() - limit
                };
                &&& r@.len() == txs.len() - skip
                &&& forall|k: int| 0 <= k < r@.len() ==> tx_congruent(#[trigger] r@[k], txs[skip + k])
            },
    {
        let mut out: Vec<Transaction> = Vec::new();
        if !(treasury_id >= 1 && treasury_id <= self.treasuries.len() as u64) {
            return out;
        }
        let t = &self.treasuries[(treasury_id - 1) as usize];
        let n = t.transactions.len();
        let skip = if n <= limit as usize {
            0
        } else {
            n - limit as usize
        };
        let mut k: usize = skip;
        while k < n
            invariant
                skip <= k <= n,
                n == t.transactions@.len(),
                out@.len() == k - skip,
                forall|j: int|
                    0 <= j < out@.len() ==> tx_congruent(
                        #[trigger] out@[j],
                        t.transactions@[skip + j],
                    ),
            decreases n - k,
        {
            out.push(t.transactions[k].clone());
            k += 1;
        }
        out
    }
}

/// Treasury conservation: in a well-formed registry, every treasury's
/// balance in every token equals the net executed flow of its ledger.
pub proof fn lemma_treasury_conservation(reg: TreasuryRegistry, treasury_id: u64, token: Option<u64>)
    requires
        reg.wf(),
        reg.has_treasury(treasury_id),
    ensures
        spec_balance_of(reg.treasury_at(treasury_id).balances@, token) == net_flow(
            reg.treasury_at(treasury_id).transactions@,
            token,
        ),
{
    assert(reg.treasuries@[treasury_id - 1].wf());
}

/// Budget bound: in a well-formed registry, every budget's spending inside
/// the current window stays within its limit.
pub proof fn lemma_budget_bound(reg: TreasuryRegistry, treasury_id: u64, k: int)
    requires
        reg.wf(),
        reg.has_treasury(treasury_id),
        0 <= k < reg.treasury_at(treasury_id).budgets@.len(),
    ensures
        0 <= reg.treasury_at(treasury_id).budgets@[k].spent <= reg.treasury_at(
            treasury_id,
        ).budgets@[k].limit,
{
    assert(reg.treasuries@[treasury_id - 1].wf());
}

} // verus!

