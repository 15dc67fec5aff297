use vstd::prelude::*;

verus! {

/// Index of a project in the registry; assigned sequentially from 0.
pub type ProjectIndex = u32;

/// Index of a round in the round history; assigned sequentially from 0.
pub type RoundIndex = u32;

/// A user account.
pub type AccountId = u64;

/// An amount of currency.
pub type Balance = u128;

/// A block height, as reported by the clock.
pub type BlockNumber = u64;

/// Who is calling an entry point: the privileged administrator or a signed user.
#[derive(Clone, Copy, Debug, PartialEq, Eq, Structural)]
pub enum Origin {
    Root,
    Signed(AccountId),
}

/// An account of the ledger: a user, the matching-fund pot, or the pot that
/// collects the contributions made to one project.
#[derive(Clone, Copy, Debug, PartialEq, Eq, Structural)]
pub enum LedgerAccount {
    User(AccountId),
    Pot,
    ProjectPot(ProjectIndex),
}

/// A movement of funds that the ledger must perform for an operation to take effect.
#[derive(Clone, Copy, Debug, PartialEq, Eq, Structural)]
pub struct Transfer {
    pub from: LedgerAccount,
    pub to: LedgerAccount,
    pub amount: Balance,
}

/// A registrar's judgement of an identity.
#[derive(Clone, Copy, Debug, PartialEq, Eq, Structural)]
pub enum Judgement {
    Unknown,
    FeePaid(Balance),
    Reasonable,
    KnownGood,
    OutOfDate,
    LowQuality,
    Erroneous,
}

/// Events emitted for external indexing.
#[derive(Clone, Copy, Debug, PartialEq, Eq, Structural)]
pub enum Event {
    ProjectCreated(ProjectIndex),
    RoundCreated(RoundIndex),
    ContributeSucceed(AccountId, ProjectIndex, Balance, BlockNumber),
    ProposalCanceled(RoundIndex, ProjectIndex),
    ProposalWithdrawn(RoundIndex, ProjectIndex, Balance, Balance),
    ProposalApproved(RoundIndex, ProjectIndex),
    RoundCanceled(RoundIndex),
    FundSucceed(),
    RoundFinalized(RoundIndex),
}

/// The failures an operation reports; an operation that fails changes nothing.
#[derive(Clone, Copy, Debug, PartialEq, Eq, Structural)]
pub enum Error {
    /// The caller has the wrong kind of origin (signed where root is needed, or the reverse).
    BadOrigin,
    NoneValue,
    StorageOverflow,
    /// An arithmetic result or a counter would not fit its type.
    Overflow,
    RoundStarted,
    RoundNotEnded,
    StartBlockNumberInvalid,
    EndBlockNumberInvalid,
    EndTooEarly,
    NoActiveRound,
    NoActiveProposal,
    InvalidParam,
    ProposalCanceled,
    ProposalWithdrawn,
    ProposalApproved,
    ProposalNotApproved,
    InvalidAccount,
    IdentityNeeded,
    StartBlockNumberTooSmall,
    RoundNotProcessing,
    RoundCanceled,
    RoundFinalized,
    RoundNotFinalized,
    ProposalAmountExceed,
    WithdrawalExpirationExceed,
    NotEnoughFund,
    InvalidProjectIndexes,
    ParamLimitExceed,
}

/// One account's cumulative donation toward a proposal.
#[derive(Clone, Copy, Debug, PartialEq, Eq, Structural)]
pub struct Contribution {
    pub account_id: AccountId,
    pub value: Balance,
}

/// A project's participation record within one round.
#[derive(Clone, Debug)]
pub struct Proposal {
    pub project_index: ProjectIndex,
    pub contributions: Vec<Contribution>,
    pub is_approved: bool,
    pub is_canceled: bool,
    pub is_withdrawn: bool,
    pub withdrawal_expiration: BlockNumber,
    pub matching_fund: Balance,
}

/// A time-boxed funding event over a fixed set of projects and a matching pool.
#[derive(Clone, Debug)]
pub struct Round {
    pub start: BlockNumber,
    pub end: BlockNumber,
    pub matching_fund: Balance,
    pub proposals: Vec<Proposal>,
    pub is_canceled: bool,
    pub is_finalized: bool,
}

/// A funding proposal in the registry.
#[derive(Clone, Debug)]
pub struct Project {
    pub name: Vec<u8>,
    pub logo: Vec<u8>,
    pub description: Vec<u8>,
    pub website: Vec<u8>,
    /// The account that will receive the funds if the campaign is successful.
    pub owner: AccountId,
    pub create_block_number: BlockNumber,
}

/// A proposal slot for `project_index` with every field zeroed or false.
pub open spec fn fresh_proposal(project_index: ProjectIndex, p: Proposal) -> bool {
    &&& p.project_index == project_index
    &&& p.contributions@.len() == 0
    &&& !p.is_approved
    &&& !p.is_canceled
    &&& !p.is_withdrawn
    &&& p.withdrawal_expiration == 0
    &&& p.matching_fund == 0
}

impl Round {
    /// A round over `project_indexes`, with one fresh proposal slot per index, in order.
    pub fn new(
        start: BlockNumber,
        end: BlockNumber,
        matching_fund: Balance,
        project_indexes: &Vec<ProjectIndex>,
    ) -> (r: Round)
        ensures
            r.start == start,
            r.end == end,
            r.matching_fund == matching_fund,
            !r.is_canceled,
            !r.is_finalized,
            r.proposals@.len() == project_indexes@.len(),
            forall|j: int|
                0 <= j < project_indexes@.len() ==> fresh_proposal(
                    #[trigger] project_indexes@[j],
                    r.proposals@[j],
                ),
    {
        let mut proposals: Vec<Proposal> = Vec::new();
        let mut i: usize = 0;
        while i < project_indexes.len()
            invariant
                i <= project_indexes@.len(),
                proposals@.len() == i,
                forall|j: int| 0 <= j < i ==> fresh_proposal(#[trigger] project_indexes@[j], proposals@[j]),
            decreases project_indexes@.len() - i,
        {
            proposals.push(
                Proposal {
                    project_index: project_indexes[i],
                    contributions: Vec::new(),
                    is_approved: false,
                    is_canceled: false,
                    is_withdrawn: false,
                    withdrawal_expiration: 0,
                    matching_fund: 0,
                },
            );
            i = i + 1;
        }
        Round { start, end, matching_fund, proposals, is_canceled: false, is_finalized: false }
    }
}

} // verus!
