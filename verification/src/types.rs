//! Plain data carried through the bridge: identifiers, the proposal record,
//! the action sum type, errors, outcomes and emitted notifications.

use vstd::prelude::*;

verus! {

/// Identifier of a validator within the registry.
pub type MemberId = u64;

/// Identifier of a bridge proposal; allocated sequentially from zero.
pub type ProposalId = u64;

/// Identifier of a token on the ledger.
pub type TokenId = u32;

/// A token amount.
pub type TokenBalance = u128;

/// A chain account identifier.
pub type AccountId = u64;

/// A block height.
pub type BlockNumber = u64;

/// The ledger effect a proposal authorizes.  `EmptyAction` is a sentinel
/// used only as a default value; intake never creates it.
#[derive(Clone, Copy, PartialEq, Eq, Structural, Debug)]
pub enum Action {
    EmptyAction,
    /// Mint `TokenBalance` of `TokenId` to `AccountId` (funds locked on the
    /// other chain).
    Ethereum2Substrate(TokenId, AccountId, TokenBalance),
    /// Burn `TokenBalance` of `TokenId` from `AccountId` (funds released on
    /// the other chain).
    Substrate2Ethereum(TokenId, AccountId, TokenBalance),
}

/// A registered validator: a member identifier and the account it signs with.
#[derive(Clone, Copy, PartialEq, Eq, Structural, Debug)]
pub struct Validator {
    pub validator_id: MemberId,
    pub account: AccountId,
}

/// One pending decision to execute a bridge action.  Once `open` is false
/// the record never changes again.
#[derive(Debug)]
pub struct BridgeProposal {
    pub proposal_id: ProposalId,
    pub action: Action,
    pub open: bool,
    /// The block height at which the proposal expires if still unresolved.
    pub voting_deadline: BlockNumber,
    /// Number of assenting votes received.
    pub votes_count: MemberId,
    /// Member identifiers of every validator that has voted (assent or
    /// dissent); each validator is counted at most once.
    pub voters: Vec<MemberId>,
}

impl Default for BridgeProposal {
    /// An empty, open proposal with the sentinel action and no votes.
    fn default() -> (p: BridgeProposal)
        ensures
            p.proposal_id == 0,
            p.action == Action::EmptyAction,
            p.open,
            p.voting_deadline == 0,
            p.votes_count == 0,
            p.voters@ == Seq::<MemberId>::empty(),
    {
        BridgeProposal {
            proposal_id: 0,
            action: Action::EmptyAction,
            open: true,
            voting_deadline: 0,
            votes_count: 0,
            voters: Vec::new(),
        }
    }
}

/// The resolution state a vote leaves a proposal in.
#[derive(Clone, Copy, PartialEq, Eq, Structural, Debug)]
pub enum Outcome {
    Pending,
    Accepted,
    Rejected,
}

/// Why the ledger refused to execute an accepted action.
#[derive(Clone, Copy, PartialEq, Eq, Structural, Debug)]
pub enum ExecutionError {
    /// Minting would overflow the token's total supply or the target
    /// account's balance.
    Overflow,
    /// Burning more than the account's balance (or the token's supply) holds.
    InsufficientBalance,
}

/// Typed failures returned to the immediate caller.  All but
/// `ExecutionFailed` abort the triggering call without mutating state.
#[derive(Clone, Copy, PartialEq, Eq, Structural, Debug)]
pub enum Error {
    /// The referenced proposal id was never allocated.
    NotFound,
    /// The referenced proposal is already closed.
    NotOpen,
    /// Defensive: the fingerprint is already registered to an open proposal.
    AlreadyOpen,
    /// The deadline bucket already holds the configured maximum number of
    /// open proposals.
    CapacityExceeded,
    /// Proposal-id or deadline arithmetic is exhausted.
    Overflow,
    /// The caller is not a registered validator.
    Unauthorized,
    /// The vote was decisive and the proposal is closed, but the ledger
    /// refused the action; reported loudly so operators can reconcile a
    /// decided-but-not-executed proposal out of band.
    ExecutionFailed(ExecutionError),
}

/// Observable notifications, appended in order to the engine's event log.
#[derive(Clone, Copy, PartialEq, Eq, Structural, Debug)]
pub enum Event {
    /// A vote was recorded: proposal, voting account, assent.
    NewVote(ProposalId, AccountId, bool),
    ProposeToMint(TokenId, AccountId, TokenBalance),
    ProposeToBurn(TokenId, AccountId, TokenBalance),
    ProposalIsAccepted(ProposalId),
    ProposalIsExpired(ProposalId),
    ProposalIsRejected(ProposalId),
}

} // verus!
