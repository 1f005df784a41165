//! Coordination engine for a decentralized guild platform.
//!
//! The engine is a deterministic state machine with three coupled subsystems:
//! role-graded membership, weighted proposal voting with transitive delegation,
//! and a multi-signature approval gate that guards privileged actions on a
//! shared treasury and on governance execution.
//!
//! The execution host (authenticated callers, persistent storage, wall clock,
//! event log, token custody) stays outside: every operation takes the caller
//! principal and the current ledger timestamp as plain arguments and acts on
//! in-memory registries that mirror the durable store.

use vstd::prelude::*;

pub mod roles;
pub mod guilds;
pub mod tally;
pub mod governance;
pub mod treasury;
pub mod multisig;

verus! {

/// A host-authenticated principal, abstracted to an opaque numeric identity.
/// The host guarantees that the caller named in each operation authorized it.
pub type Principal = u64;

/// One failure taxonomy for the whole engine. Every error is fatal to the
/// current invocation; the host discards partial writes on failure.
#[derive(Clone, Copy, Debug, PartialEq, Eq, Structural)]
pub enum Error {
    /// Caller lacks the required role, or is not a signer or owner.
    Unauthorized,
    /// Entity id unknown.
    NotFound,
    /// Operation not applicable to the entity's current status.
    BadState,
    /// The transition would leave the system in an illegal state
    /// (last owner removed, unsafe threshold, exhausted budget or balance).
    InvariantViolation,
    /// Out-of-range argument, bad length, or mismatched payload tag.
    InvalidInput,
    /// Already a member, already signed, already voted.
    DuplicateState,
    /// Expired operation, transaction, or execution window.
    Timeout,
    /// The voting period of the proposal has not ended yet.
    VotingOpen,
    /// The named principal is not a signer of the account.
    InvalidSigner,
    /// Fewer signatures than the policy requires.
    InsufficientSignatures,
    /// The policy demands the owner's signature and it is absent.
    MissingOwnerSignature,
    /// The executed operation's type does not match the expected type.
    TypeMismatch,
}

/// Shortest multisig operation timeout the policy clamp allows: 24 hours.
pub const TIMEOUT_24H: u64 = 86_400;

/// Longest multisig operation timeout the policy clamp allows: 48 hours.
pub const TIMEOUT_48H: u64 = 172_800;

/// Timeout applied when no operation policy was recorded.
pub const DEFAULT_TIMEOUT: u64 = 172_800;

/// Default proposal voting period: 7 days.
pub const DEFAULT_VOTING_PERIOD: u64 = 604_800;

/// Default quorum: 30% of the guild's total vote weight must participate.
pub const DEFAULT_QUORUM_PERCENTAGE: u32 = 30;

/// Default approval threshold: more than 50% of for+against must be for.
pub const DEFAULT_APPROVAL_PERCENTAGE: u32 = 50;

/// A passed proposal must execute within 3 days of passing.
pub const EXECUTION_DEADLINE_SECONDS: u64 = 259_200;

/// Delegation chains are resolved by a bounded walk of at most 16 hops.
pub const DELEGATION_HOP_CAP: u64 = 16;

/// Treasury withdrawal proposals expire 24 hours after proposal.
pub const WITHDRAWAL_TIMEOUT: u64 = 86_400;

/// Engine revision string.
pub fn version() -> (s: String)
    ensures
        s@ == "0.1.0"@,
{
    "0.1.0".to_owned()
}

} // verus!
