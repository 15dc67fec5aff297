use vstd::prelude::*;
use crate::contribution::contributions_wf;
use crate::matching::matching_share;
use crate::types::{
    AccountId, Balance, BlockNumber, Error, Event, Judgement, LedgerAccount, Origin, Project,
    ProjectIndex, Proposal, Round, Transfer,
};

verus! {

/// Limits fixed when the engine is set up.
#[derive(Clone, Copy, Debug)]
pub struct Config {
    /// The largest value that the maximum number of proposals per round may be set to.
    pub max_proposals_per_round: u32,
}

/// The initial values of the administrative settings.
#[derive(Clone, Copy, Debug)]
pub struct GenesisConfig {
    pub init_max_proposal_count_per_round: u32,
    pub init_withdrawal_expiration: BlockNumber,
    pub init_is_identity_required: bool,
}

impl Default for GenesisConfig {
    fn default() -> (r: GenesisConfig)
        ensures
            r.init_max_proposal_count_per_round == 5,
            r.init_withdrawal_expiration == 0,
            !r.init_is_identity_required,
    {
        GenesisConfig {
            init_max_proposal_count_per_round: 5,
            init_withdrawal_expiration: 0,
            init_is_identity_required: false,
        }
    }
}

impl GenesisConfig {
    /// A fresh engine at height 0, with no projects or rounds and these settings.
    pub fn build(&self, config: Config) -> (r: Pallet)
        ensures
            r.wf(),
            r.projects@.len() == 0,
            r.rounds@.len() == 0,
            r.events@.len() == 0,
            r.block_number == 0,
            r.max_proposal_count_per_round == self.init_max_proposal_count_per_round,
            r.withdrawal_expiration == self.init_withdrawal_expiration,
            r.is_identity_required == self.init_is_identity_required,
            r.max_proposals_per_round == config.max_proposals_per_round,
    {
        Pallet {
            projects: Vec::new(),
            rounds: Vec::new(),
            max_proposal_count_per_round: self.init_max_proposal_count_per_round,
            withdrawal_expiration: self.init_withdrawal_expiration,
            is_identity_required: self.init_is_identity_required,
            max_proposals_per_round: config.max_proposals_per_round,
            block_number: 0,
            events: Vec::new(),
        }
    }
}

/// The grant-round engine: the project registry, the round history and the
/// administrative settings.
///
/// Operations that move funds return the transfers the ledger must perform;
/// the new state stands only if the ledger performs all of them, and the
/// caller otherwise keeps the state it had before the call.
#[derive(Clone, Debug)]
pub struct Pallet {
    /// Projects by index.
    pub projects: Vec<Project>,
    /// Rounds by index.
    pub rounds: Vec<Round>,
    pub max_proposal_count_per_round: u32,
    /// The length of the window in which an approved proposal may be withdrawn.
    pub withdrawal_expiration: BlockNumber,
    pub is_identity_required: bool,
    /// The cap on `max_proposal_count_per_round`.
    pub max_proposals_per_round: u32,
    /// The current height, as last reported by the clock.
    pub block_number: BlockNumber,
    /// Events emitted so far, oldest first.
    pub events: Vec<Event>,
}

/// A proposal's flags and matching fund are consistent with its round's stage.
pub open spec fn proposal_wf(p: Proposal, project_count: nat, finalized: bool) -> bool {
    &&& p.project_index < project_count
    &&& contributions_wf(p.contributions@)
    &&& p.is_approved ==> !p.is_canceled
    &&& p.is_withdrawn ==> p.is_approved
    &&& !finalized ==> p.matching_fund == 0 && !p.is_approved
}

/// A round is well formed: it ends after it starts, its proposals are well
/// formed, and once finalized it has ended and each proposal holds exactly
/// its matching share.
pub open spec fn round_wf(r: Round, project_count: nat, now: nat) -> bool {
    &&& r.start < r.end
    &&& forall|j: int|
        0 <= j < r.proposals@.len() ==> proposal_wf(#[trigger] r.proposals@[j], project_count, r.is_finalized)
    &&& r.is_finalized ==> {
        &&& r.end <= now
        &&& !r.is_canceled
        &&& forall|j: int|
            0 <= j < r.proposals@.len() ==> (#[trigger] r.proposals@[j]).matching_fund == matching_share(
                r.matching_fund as nat,
                r.proposals@,
                j,
            )
    }
}

/// Rounds that are not canceled never overlap, and come in the order of time.
pub open spec fn rounds_disjoint(rs: Seq<Round>) -> bool {
    forall|a: int, b: int|
        0 <= a < b < rs.len() && !(#[trigger] rs[a]).is_canceled && !(#[trigger] rs[b]).is_canceled ==> rs[a].end
            < rs[b].start
}

/// Whether a registrar has judged the identity good enough.
pub open spec fn has_good_judgement(js: Seq<Judgement>) -> bool {
    exists|j: int| 0 <= j < js.len() && (#[trigger] js[j] == Judgement::Reasonable || js[j] == Judgement::KnownGood)
}

/// Whether the settings, the clock and the cap of two states agree.
pub open spec fn same_settings(a: Pallet, b: Pallet) -> bool {
    &&& a.max_proposal_count_per_round == b.max_proposal_count_per_round
    &&& a.withdrawal_expiration == b.withdrawal_expiration
    &&& a.is_identity_required == b.is_identity_required
    &&& a.max_proposals_per_round == b.max_proposals_per_round
    &&& a.block_number == b.block_number
}

/// `b` keeps what `a` recorded of its rounds' proposals: rounds are only
/// appended, each proposal keeps its slot and project, and a proposal that
/// was paid out stays paid out.
pub open spec fn proposals_kept(a: Pallet, b: Pallet) -> bool {
    &&& a.rounds@.len() <= b.rounds@.len()
    &&& a.projects@.len() <= b.projects@.len()
    &&& forall|i: int| 0 <= i < a.projects@.len() ==> #[trigger] b.projects@[i].owner == a.projects@[i].owner
    &&& forall|ri: int|
        0 <= ri < a.rounds@.len() ==> (#[trigger] b.rounds@[ri]).proposals@.len() == a.rounds@[ri].proposals@.len()
    &&& forall|ri: int, j: int|
        0 <= ri < a.rounds@.len() && 0 <= j < a.rounds@[ri].proposals@.len() ==> {
            &&& (#[trigger] b.rounds@[ri].proposals@[j]).project_index == a.rounds@[ri].proposals@[j].project_index
            &&& a.rounds@[ri].proposals@[j].is_withdrawn ==> b.rounds@[ri].proposals@[j].is_withdrawn
        }
}

/// Whether two projects hold the same fields.
pub open spec fn same_project(a: Project, b: Project) -> bool {
    &&& a.name@ == b.name@
    &&& a.logo@ == b.logo@
    &&& a.description@ == b.description@
    &&& a.website@ == b.website@
    &&& a.owner == b.owner
    &&& a.create_block_number == b.create_block_number
}

/// A copy of the bytes.
fn copy_bytes(v: &Vec<u8>) -> (r: Vec<u8>)
    ensures
        r@ == v@,
{
    let mut r: Vec<u8> = Vec::new();
    let mut i: usize = 0;
    while i < v.len()
        invariant
            i <= v@.len(),
            r@ == v@.subrange(0, i as int),
        decreases v@.len() - i,
    {
        r.push(v[i]);
        i = i + 1;
        assert(r@ =~= v@.subrange(0, i as int));
    }
    assert(v@.subrange(0, i as int) =~= v@);
    r
}

/// A copy of the project.
fn copy_project(p: &Project) -> (r: Project)
    ensures
        same_project(r, *p),
{
    Project {
        name: copy_bytes(&p.name),
        logo: copy_bytes(&p.logo),
        description: copy_bytes(&p.description),
        website: copy_bytes(&p.website),
        owner: p.owner,
        create_block_number: p.create_block_number,
    }
}

/// The signer of `origin`, or `BadOrigin` for the root origin.
pub fn ensure_signed(origin: Origin) -> (r: Result<AccountId, Error>)
    ensures
        match origin {
            Origin::Signed(who) => r == Ok::<AccountId, Error>(who),
            Origin::Root => r == Err::<AccountId, Error>(Error::BadOrigin),
        },
{
    match origin {
        Origin::Signed(who) => Ok(who),
        Origin::Root => Err(Error::BadOrigin),
    }
}

/// Succeeds for the root origin only.
pub fn ensure_root(origin: Origin) -> (r: Result<(), Error>)
    ensures
        r is Ok <==> origin is Root,
        r is Err ==> r == Err::<(), Error>(Error::BadOrigin),
{
    match origin {
        Origin::Root => Ok(()),
        Origin::Signed(_) => Err(Error::BadOrigin),
    }
}

/// Whether some judgement of the identity is `Reasonable` or `KnownGood`.
pub fn is_judged_good(judgements: &Vec<Judgement>) -> (r: bool)
    ensures
        r == has_good_judgement(judgements@),
{
    let mut i: usize = 0;
    while i < judgements.len()
        invariant
            i <= judgements@.len(),
            forall|k: int|
                0 <= k < i ==> !(#[trigger] judgements@[k] == Judgement::Reasonable || judgements@[k]
                    == Judgement::KnownGood),
        decreases judgements@.len() - i,
    {
        let j = judgements[i];
        if j == Judgement::Reasonable || j == Judgement::KnownGood {
            return true;
        }
        i = i + 1;
    }
    false
}

impl Pallet {
    /// The engine's invariant.
    pub open spec fn wf(&self) -> bool {
        &&& self.projects@.len() <= u32::MAX
        &&& self.rounds@.len() <= u32::MAX
        &&& forall|i: int|
            0 <= i < self.rounds@.len() ==> round_wf(
                #[trigger] self.rounds@[i],
                self.projects@.len(),
                self.block_number as nat,
            )
        &&& rounds_disjoint(self.rounds@)
    }

    /// Why `create_project` fails, if it does.
    pub open spec fn create_project_error(
        &self,
        origin: Origin,
        name: Seq<u8>,
        logo: Seq<u8>,
        description: Seq<u8>,
        website: Seq<u8>,
        identity: Option<Seq<Judgement>>,
    ) -> Option<Error> {
        if origin is Root {
            Some(Error::BadOrigin)
        } else if self.is_identity_required && !(identity matches Some(js) && has_good_judgement(js)) {
            Some(Error::IdentityNeeded)
        } else if name.len() == 0 || logo.len() == 0 || description.len() == 0 || website.len() == 0 {
            Some(Error::InvalidParam)
        } else if self.projects@.len() >= u32::MAX {
            Some(Error::Overflow)
        } else {
            None
        }
    }

    /// Advances the clock to height `now`.
    pub fn set_block_number(&mut self, now: BlockNumber)
        requires
            old(self).wf(),
            old(self).block_number <= now,
        ensures
            final(self).wf(),
            proposals_kept(*old(self), *final(self)),
            *final(self) == (Pallet { block_number: now, ..*old(self) }),
    {
        self.block_number = now;
        assert(forall|i: int|
            0 <= i < self.rounds@.len() ==> round_wf(
                #[trigger] self.rounds@[i],
                self.projects@.len(),
                self.block_number as nat,
            ));
    }

    /// Registers a project owned by the signer, under the next index.
    /// `identity` holds the judgements of the signer's registered identity, if any.
    pub fn create_project(
        &mut self,
        origin: Origin,
        name: Vec<u8>,
        logo: Vec<u8>,
        description: Vec<u8>,
        website: Vec<u8>,
        identity: &Option<Vec<Judgement>>,
    ) -> (r: Result<ProjectIndex, Error>)
        requires
            old(self).wf(),
        ensures
            final(self).wf(),
            proposals_kept(*old(self), *final(self)),
            ({
                let err = old(self).create_project_error(
                    origin,
                    name@,
                    logo@,
                    description@,
                    website@,
                    match identity {
                        Some(js) => Some(js@),
                        None => None,
                    },
                );
                match r {
                    Ok(index) => {
                        &&& err is None
                        &&& index == old(self).projects@.len()
                        &&& origin matches Origin::Signed(who) && final(self).projects@ == old(self).projects@.push(
                            Project {
                                name,
                                logo,
                                description,
                                website,
                                owner: who,
                                create_block_number: old(self).block_number,
                            },
                        )
                        &&& final(self).rounds@ == old(self).rounds@
                        &&& same_settings(*final(self), *old(self))
                        &&& final(self).events@ == old(self).events@.push(Event::ProjectCreated(index))
                    },
                    Err(e) => err == Some(e) && *final(self) == *old(self),
                }
            }),
    {
        let who = match ensure_signed(origin) {
            Ok(who) => who,
            Err(e) => {
                return Err(e);
            },
        };
        if self.is_identity_required {
            let good = match identity {
                Some(js) => is_judged_good(js),
                None => false,
            };
            if !good {
                return Err(Error::IdentityNeeded);
            }
        }
        if name.len() == 0 || logo.len() == 0 || description.len() == 0 || website.len() == 0 {
            return Err(Error::InvalidParam);
        }
        let count = self.projects.len();
        if count >= u32::MAX as usize {
            return Err(Error::Overflow);
        }
        let index = count as u32;
        let project = Project {
            name,
            logo,
            description,
            website,
            owner: who,
            create_block_number: self.block_number,
        };
        self.projects.push(project);
        self.events.push(Event::ProjectCreated(index));
        assert(forall|i: int|
            0 <= i < self.rounds@.len() ==> round_wf(
                #[trigger] self.rounds@[i],
                self.projects@.len(),
                self.block_number as nat,
            )) by {
            assert forall|i: int| 0 <= i < self.rounds@.len() implies round_wf(
                #[trigger] self.rounds@[i],
                self.projects@.len(),
                self.block_number as nat,
            ) by {
                let r = self.rounds@[i];
                assert(round_wf(r, (self.projects@.len() - 1) as nat, self.block_number as nat));
                assert forall|j: int| 0 <= j < r.proposals@.len() implies proposal_wf(
                    #[trigger] r.proposals@[j],
                    self.projects@.len(),
                    r.is_finalized,
                ) by {
                    assert(proposal_wf(r.proposals@[j], (self.projects@.len() - 1) as nat, r.is_finalized));
                }
            }
        }
        Ok(index)
    }

    /// Moves `fund_balance` from the signer into the matching pool.
    pub fn fund(&mut self, origin: Origin, fund_balance: Balance) -> (r: Result<Transfer, Error>)
        requires
            old(self).wf(),
        ensures
            final(self).wf(),
            proposals_kept(*old(self), *final(self)),
            match r {
                Ok(t) => {
                    &&& origin matches Origin::Signed(who) && t == (Transfer {
                        from: LedgerAccount::User(who),
                        to: LedgerAccount::Pot,
                        amount: fund_balance,
                    })
                    &&& fund_balance > 0
                    &&& *final(self) == (Pallet { events: final(self).events, ..*old(self) })
                    &&& final(self).events@ == old(self).events@.push(Event::FundSucceed())
                },
                Err(e) => {
                    &&& e == if origin is Root {
                        Error::BadOrigin
                    } else {
                        Error::InvalidParam
                    }
                    &&& (origin is Root || fund_balance == 0)
                    &&& *final(self) == *old(self)
                },
            },
    {
        let who = match ensure_signed(origin) {
            Ok(who) => who,
            Err(e) => {
                return Err(e);
            },
        };
        if fund_balance == 0 {
            return Err(Error::InvalidParam);
        }
        self.events.push(Event::FundSucceed());
        Ok(Transfer { from: LedgerAccount::User(who), to: LedgerAccount::Pot, amount: fund_balance })
    }

    /// Sets the maximum number of proposals per round; it must lie in `[1, cap]`.
    pub fn set_max_proposal_count_per_round(&mut self, origin: Origin, max_proposal_count_per_round: u32) -> (r: Result<(), Error>)
        requires
            old(self).wf(),
        ensures
            final(self).wf(),
            proposals_kept(*old(self), *final(self)),
            match r {
                Ok(()) => {
                    &&& origin is Root
                    &&& 1 <= max_proposal_count_per_round <= old(self).max_proposals_per_round
                    &&& *final(self) == (Pallet { max_proposal_count_per_round, ..*old(self) })
                },
                Err(e) => {
                    &&& e == if origin is Root {
                        Error::ParamLimitExceed
                    } else {
                        Error::BadOrigin
                    }
                    &&& (origin is Signed || max_proposal_count_per_round == 0
                        || max_proposal_count_per_round > old(self).max_proposals_per_round)
                    &&& *final(self) == *old(self)
                },
            },
    {
        if let Err(e) = ensure_root(origin) {
            return Err(e);
        }
        if max_proposal_count_per_round == 0 || max_proposal_count_per_round > self.max_proposals_per_round {
            return Err(Error::ParamLimitExceed);
        }
        self.max_proposal_count_per_round = max_proposal_count_per_round;
        Ok(())
    }

    /// Sets the length of the withdrawal window; it must be positive.
    pub fn set_withdrawal_expiration(&mut self, origin: Origin, withdrawal_expiration: BlockNumber) -> (r: Result<(), Error>)
        requires
            old(self).wf(),
        ensures
            final(self).wf(),
            proposals_kept(*old(self), *final(self)),
            match r {
                Ok(()) => {
                    &&& origin is Root
                    &&& withdrawal_expiration > 0
                    &&& *final(self) == (Pallet { withdrawal_expiration, ..*old(self) })
                },
                Err(e) => {
                    &&& e == if origin is Root {
                        Error::InvalidParam
                    } else {
                        Error::BadOrigin
                    }
                    &&& (origin is Signed || withdrawal_expiration == 0)
                    &&& *final(self) == *old(self)
                },
            },
    {
        if let Err(e) = ensure_root(origin) {
            return Err(e);
        }
        if withdrawal_expiration == 0 {
            return Err(Error::InvalidParam);
        }
        self.withdrawal_expiration = withdrawal_expiration;
        Ok(())
    }

    /// Sets whether creating a project needs a well-judged identity.
    pub fn set_is_identity_required(&mut self, origin: Origin, is_identity_required: bool) -> (r: Result<(), Error>)
        requires
            old(self).wf(),
        ensures
            final(self).wf(),
            proposals_kept(*old(self), *final(self)),
            match r {
                Ok(()) => origin is Root && *final(self) == (Pallet { is_identity_required, ..*old(self) }),
                Err(e) => e == Error::BadOrigin && origin is Signed && *final(self) == *old(self),
            },
    {
        if let Err(e) = ensure_root(origin) {
            return Err(e);
        }
        self.is_identity_required = is_identity_required;
        Ok(())
    }

    /// The ledger account that holds the matching pool.
    pub fn account_id() -> (r: LedgerAccount)
        ensures
            r == LedgerAccount::Pot,
    {
        LedgerAccount::Pot
    }

    /// The ledger account that holds the contributions made to project `index`.
    pub fn project_account_id(index: ProjectIndex) -> (r: LedgerAccount)
        ensures
            r == LedgerAccount::ProjectPot(index),
    {
        LedgerAccount::ProjectPot(index)
    }

    /// The number of registered projects.
    pub fn project_count(&self) -> (r: u32)
        requires
            self.wf(),
        ensures
            r == self.projects@.len(),
    {
        self.projects.len() as u32
    }

    /// The number of scheduled rounds.
    pub fn round_count(&self) -> (r: u32)
        requires
            self.wf(),
        ensures
            r == self.rounds@.len(),
    {
        self.rounds.len() as u32
    }

    /// All projects, in index order.
    pub fn get_projects(&self) -> (r: Vec<Project>)
        ensures
            r@.len() == self.projects@.len(),
            forall|i: int| 0 <= i < r@.len() ==> same_project(#[trigger] r@[i], self.projects@[i]),
    {
        let mut r: Vec<Project> = Vec::new();
        let mut i: usize = 0;
        while i < self.projects.len()
            invariant
                i <= self.projects@.len(),
                r@.len() == i,
                forall|k: int| 0 <= k < i ==> same_project(#[trigger] r@[k], self.projects@[k]),
            decreases self.projects@.len() - i,
        {
            r.push(copy_project(&self.projects[i]));
            i = i + 1;
        }
        r
    }
}

} // verus!
