use vstd::prelude::*;
use crate::contribution::{add_contribution, contribution_overflows, contribution_total, merge_overflows, merged, value_total};
use crate::matching::{calculate_matching_funds, lemma_shares_unchanged, matching_fits, matching_share};
use crate::pallet::{Pallet, ensure_root, ensure_signed, proposal_wf, proposals_kept, round_wf, same_settings};
use crate::types::{
    BlockNumber, Balance, Error, Event, LedgerAccount, Origin, ProjectIndex, Proposal, Round, RoundIndex,
    Transfer,
};

verus! {

/// Whether round `r` is taking contributions at height `now`.
pub open spec fn is_active(r: Round, now: nat) -> bool {
    !r.is_canceled && r.start < now && now < r.end
}

/// The latest round of `rs` that is active at `now`, if any.
pub open spec fn last_active(rs: Seq<Round>, now: nat) -> Option<int>
    decreases rs.len(),
{
    if rs.len() == 0 {
        None
    } else if is_active(rs.last(), now) {
        Some(rs.len() - 1)
    } else {
        last_active(rs.drop_last(), now)
    }
}

/// The position of the first proposal of `ps` for project `pi`, if any.
pub open spec fn find_proposal(ps: Seq<Proposal>, pi: ProjectIndex) -> Option<int>
    decreases ps.len(),
{
    if ps.len() == 0 {
        None
    } else {
        match find_proposal(ps.drop_last(), pi) {
            Some(k) => Some(k),
            None => if ps.last().project_index == pi {
                Some(ps.len() - 1)
            } else {
                None
            },
        }
    }
}

/// Whether scheduling a round starting at `start` would overlap a round of
/// `rs` that is not canceled.
pub open spec fn overlaps_history(rs: Seq<Round>, start: nat) -> bool {
    exists|i: int| 0 <= i < rs.len() && !(#[trigger] rs[i]).is_canceled && start <= rs[i].end
}

/// `b` is `a` with, at most, the scalar state of round `ri` changed: its time
/// bounds, pool and proposals stay.
pub open spec fn round_changed(a: Seq<Round>, b: Seq<Round>, ri: int) -> bool {
    &&& a.len() == b.len()
    &&& 0 <= ri < a.len()
    &&& forall|i: int| 0 <= i < a.len() && i != ri ==> #[trigger] b[i] == a[i]
    &&& b[ri].start == a[ri].start
    &&& b[ri].end == a[ri].end
    &&& b[ri].matching_fund == a[ri].matching_fund
}

/// `b` is `a` with only proposal `j` of round `ri` changed, and not its project.
pub open spec fn proposal_changed(a: Seq<Round>, b: Seq<Round>, ri: int, j: int) -> bool {
    &&& round_changed(a, b, ri)
    &&& b[ri].is_canceled == a[ri].is_canceled
    &&& b[ri].is_finalized == a[ri].is_finalized
    &&& b[ri].proposals@.len() == a[ri].proposals@.len()
    &&& 0 <= j < a[ri].proposals@.len()
    &&& forall|k: int| 0 <= k < a[ri].proposals@.len() && k != j ==> #[trigger] b[ri].proposals@[k] == a[ri].proposals@[k]
    &&& b[ri].proposals@[j].project_index == a[ri].proposals@[j].project_index
}

pub proof fn lemma_find_proposal(ps: Seq<Proposal>, pi: ProjectIndex)
    ensures
        find_proposal(ps, pi) matches Some(k) ==> 0 <= k < ps.len() && ps[k].project_index == pi,
        find_proposal(ps, pi) is None ==> forall|i: int| 0 <= i < ps.len() ==> (#[trigger] ps[i]).project_index != pi,
    decreases ps.len(),
{
    if ps.len() > 0 {
        let rest = ps.drop_last();
        lemma_find_proposal(rest, pi);
        assert(forall|i: int| 0 <= i < rest.len() ==> rest[i] == ps[i]);
    }
}

proof fn lemma_find_proposal_prefix(ps: Seq<Proposal>, pi: ProjectIndex, i: int)
    requires
        0 <= i <= ps.len(),
        forall|k: int| 0 <= k < i ==> (#[trigger] ps[k]).project_index != pi,
    ensures
        find_proposal(ps.subrange(0, i), pi) is None,
    decreases i,
{
    if i > 0 {
        assert(ps.subrange(0, i).drop_last() =~= ps.subrange(0, i - 1));
        lemma_find_proposal_prefix(ps, pi, i - 1);
    }
}

proof fn lemma_find_proposal_extend(ps: Seq<Proposal>, pi: ProjectIndex, i: int)
    requires
        0 <= i <= ps.len(),
        find_proposal(ps.subrange(0, i), pi) is Some,
    ensures
        find_proposal(ps, pi) == find_proposal(ps.subrange(0, i), pi),
    decreases ps.len() - i,
{
    if i < ps.len() {
        assert(ps.subrange(0, i + 1).drop_last() =~= ps.subrange(0, i));
        lemma_find_proposal_extend(ps, pi, i + 1);
    } else {
        assert(ps.subrange(0, i) =~= ps);
    }
}

pub proof fn lemma_last_active(rs: Seq<Round>, now: nat)
    ensures
        last_active(rs, now) matches Some(i) ==> 0 <= i < rs.len() && is_active(rs[i], now),
    decreases rs.len(),
{
    if rs.len() > 0 {
        let rest = rs.drop_last();
        lemma_last_active(rest, now);
        assert(forall|i: int| 0 <= i < rest.len() ==> rest[i] == rs[i]);
    }
}

/// The position of the first proposal for project `pi`.
fn position_of(proposals: &Vec<Proposal>, pi: ProjectIndex) -> (r: Option<usize>)
    ensures
        match r {
            Some(j) => find_proposal(proposals@, pi) == Some(j as int),
            None => find_proposal(proposals@, pi) is None,
        },
{
    let ghost ps = proposals@;
    let mut i: usize = 0;
    while i < proposals.len()
        invariant
            i <= ps.len(),
            ps == proposals@,
            forall|k: int| 0 <= k < i ==> (#[trigger] ps[k]).project_index != pi,
        decreases ps.len() - i,
    {
        if proposals[i].project_index == pi {
            proof {
                lemma_find_proposal_prefix(ps, pi, i as int);
                assert(ps.subrange(0, i + 1).drop_last() =~= ps.subrange(0, i as int));
                assert(ps.subrange(0, i + 1).last() == ps[i as int]);
                lemma_find_proposal_extend(ps, pi, i + 1);
            }
            return Some(i);
        }
        i = i + 1;
    }
    proof {
        lemma_find_proposal_prefix(ps, pi, i as int);
        assert(ps.subrange(0, i as int) =~= ps);
    }
    None
}

/// The latest round that is active at `now`.
fn latest_active(rounds: &Vec<Round>, now: BlockNumber) -> (r: Option<usize>)
    ensures
        match r {
            Some(i) => last_active(rounds@, now as nat) == Some(i as int),
            None => last_active(rounds@, now as nat) is None,
        },
{
    let ghost rs = rounds@;
    let mut i: usize = rounds.len();
    assert(rs.subrange(0, i as int) =~= rs);
    while i > 0
        invariant
            i <= rs.len(),
            rs == rounds@,
            last_active(rs, now as nat) == last_active(rs.subrange(0, i as int), now as nat),
        decreases i,
    {
        proof {
            let pre = rs.subrange(0, i as int);
            assert(pre.drop_last() =~= rs.subrange(0, i - 1));
            assert(pre.last() == rs[i - 1]);
        }
        let r = &rounds[i - 1];
        if !r.is_canceled && r.start < now && now < r.end {
            return Some(i - 1);
        }
        i = i - 1;
    }
    None
}

/// The state after a change to one proposal is well formed, when the new
/// proposal is, and when the change leaves the round's shares as they were or
/// the round is not finalized.
proof fn lemma_wf_after_proposal_change(a: Pallet, b: Pallet, ri: int, j: int)
    requires
        a.wf(),
        proposal_changed(a.rounds@, b.rounds@, ri, j),
        b.projects@ == a.projects@,
        b.block_number == a.block_number,
        proposal_wf(b.rounds@[ri].proposals@[j], b.projects@.len(), b.rounds@[ri].is_finalized),
        b.rounds@[ri].proposals@[j].is_canceled == a.rounds@[ri].proposals@[j].is_canceled,
        b.rounds@[ri].is_finalized ==> b.rounds@[ri].proposals@[j].contributions@ == a.rounds@[ri].proposals@[j].contributions@
            && b.rounds@[ri].proposals@[j].matching_fund == a.rounds@[ri].proposals@[j].matching_fund,
    ensures
        b.wf(),
{
    let (ra, rb) = (a.rounds@, b.rounds@);
    assert forall|x: int| 0 <= x < rb.len() implies round_wf(#[trigger] rb[x], b.projects@.len(), b.block_number as nat) by {
        assert(round_wf(ra[x], a.projects@.len(), a.block_number as nat));
        if x == ri {
            let (pa, pb) = (ra[x].proposals@, rb[x].proposals@);
            assert forall|k: int| 0 <= k < pb.len() implies proposal_wf(#[trigger] pb[k], b.projects@.len(), rb[x].is_finalized) by {
                if k != j {
                    assert(pb[k] == pa[k]);
                }
            }
            if rb[x].is_finalized {
                lemma_shares_unchanged(ra[x].matching_fund as nat, pa, pb);
                assert forall|k: int| 0 <= k < pb.len() implies (#[trigger] pb[k]).matching_fund == matching_share(
                    rb[x].matching_fund as nat,
                    pb,
                    k,
                ) by {
                    assert(matching_share(ra[x].matching_fund as nat, pb, k) == matching_share(ra[x].matching_fund as nat, pa, k));
                }
            }
        }
    }
    assert forall|x: int, y: int|
        0 <= x < y < rb.len() && !(#[trigger] rb[x]).is_canceled && !(#[trigger] rb[y]).is_canceled implies rb[x].end
        < rb[y].start by {
        assert(ra[x].is_canceled == rb[x].is_canceled && ra[y].is_canceled == rb[y].is_canceled);
    }
}

/// The state after canceling one proposal of a round that is not finalized
/// is well formed.
proof fn lemma_wf_after_proposal_change_canceled(a: Pallet, b: Pallet, ri: int, j: int)
    requires
        a.wf(),
        proposal_changed(a.rounds@, b.rounds@, ri, j),
        b.projects@ == a.projects@,
        b.block_number == a.block_number,
        !a.rounds@[ri].is_finalized,
        proposal_wf(b.rounds@[ri].proposals@[j], b.projects@.len(), false),
    ensures
        b.wf(),
{
    let (ra, rb) = (a.rounds@, b.rounds@);
    assert forall|x: int| 0 <= x < rb.len() implies round_wf(#[trigger] rb[x], b.projects@.len(), b.block_number as nat) by {
        assert(round_wf(ra[x], a.projects@.len(), a.block_number as nat));
        if x == ri {
            let (pa, pb) = (ra[x].proposals@, rb[x].proposals@);
            assert forall|k: int| 0 <= k < pb.len() implies proposal_wf(#[trigger] pb[k], b.projects@.len(), rb[x].is_finalized) by {
                if k != j {
                    assert(pb[k] == pa[k]);
                }
            }
        }
    }
    assert forall|x: int, y: int|
        0 <= x < y < rb.len() && !(#[trigger] rb[x]).is_canceled && !(#[trigger] rb[y]).is_canceled implies rb[x].end
        < rb[y].start by {
        assert(ra[x].is_canceled == rb[x].is_canceled && ra[y].is_canceled == rb[y].is_canceled);
    }
}

/// Whether every index is below `count`.
fn indexes_below(project_indexes: &Vec<ProjectIndex>, count: usize) -> (r: bool)
    ensures
        r == forall|x: int| 0 <= x < project_indexes@.len() ==> #[trigger] project_indexes@[x] < count,
{
    let mut k: usize = 0;
    while k < project_indexes.len()
        invariant
            k <= project_indexes@.len(),
            forall|x: int| 0 <= x < k ==> #[trigger] project_indexes@[x] < count,
        decreases project_indexes@.len() - k,
    {
        if project_indexes[k] as usize >= count {
            return false;
        }
        k = k + 1;
    }
    true
}

impl Pallet {
    /// Why `schedule_round` fails, if it does.
    pub open spec fn schedule_round_error(
        &self,
        origin: Origin,
        start: BlockNumber,
        end: BlockNumber,
        project_indexes: Seq<ProjectIndex>,
    ) -> Option<Error> {
        if origin is Signed {
            Some(Error::BadOrigin)
        } else if project_indexes.len() == 0 {
            Some(Error::InvalidProjectIndexes)
        } else if project_indexes.len() > self.max_proposal_count_per_round {
            Some(Error::ProposalAmountExceed)
        } else if end <= start {
            Some(Error::EndTooEarly)
        } else if start <= self.block_number {
            Some(Error::StartBlockNumberInvalid)
        } else if end <= self.block_number {
            Some(Error::EndBlockNumberInvalid)
        } else if exists|k: int| 0 <= k < project_indexes.len() && #[trigger] project_indexes[k] >= self.projects@.len() {
            Some(Error::InvalidProjectIndexes)
        } else if overlaps_history(self.rounds@, start as nat) {
            Some(Error::StartBlockNumberTooSmall)
        } else if self.rounds@.len() >= u32::MAX {
            Some(Error::Overflow)
        } else {
            None
        }
    }

    /// Schedules a round over `project_indexes`, with pool `matching_fund`,
    /// from `start` to `end`, under the next round index.
    pub fn schedule_round(
        &mut self,
        origin: Origin,
        start: BlockNumber,
        end: BlockNumber,
        matching_fund: Balance,
        project_indexes: Vec<ProjectIndex>,
    ) -> (r: Result<RoundIndex, Error>)
        requires
            old(self).wf(),
        ensures
            final(self).wf(),
            proposals_kept(*old(self), *final(self)),
            match r {
                Ok(index) => {
                    &&& old(self).schedule_round_error(origin, start, end, project_indexes@) is None
                    &&& index == old(self).rounds@.len()
                    &&& final(self).rounds@.len() == old(self).rounds@.len() + 1
                    &&& final(self).rounds@.drop_last() == old(self).rounds@
                    &&& ({
                        let round = final(self).rounds@.last();
                        &&& round.start == start
                        &&& round.end == end
                        &&& round.matching_fund == matching_fund
                        &&& !round.is_canceled
                        &&& !round.is_finalized
                        &&& round.proposals@.len() == project_indexes@.len()
                        &&& forall|j: int|
                            0 <= j < project_indexes@.len() ==> crate::types::fresh_proposal(
                                #[trigger] project_indexes@[j],
                                round.proposals@[j],
                            )
                    })
                    &&& final(self).projects@ == old(self).projects@
                    &&& same_settings(*final(self), *old(self))
                    &&& final(self).events@ == old(self).events@.push(Event::RoundCreated(index))
                },
                Err(e) => old(self).schedule_round_error(origin, start, end, project_indexes@) == Some(e)
                    && *final(self) == *old(self),
            },
    {
        if let Err(e) = ensure_root(origin) {
            return Err(e);
        }
        let now = self.block_number;
        if project_indexes.len() == 0 {
            return Err(Error::InvalidProjectIndexes);
        }
        if project_indexes.len() > self.max_proposal_count_per_round as usize {
            return Err(Error::ProposalAmountExceed);
        }
        if end <= start {
            return Err(Error::EndTooEarly);
        }
        if start <= now {
            return Err(Error::StartBlockNumberInvalid);
        }
        if end <= now {
            return Err(Error::EndBlockNumberInvalid);
        }
        let project_count = self.projects.len();
        if !indexes_below(&project_indexes, project_count) {
            return Err(Error::InvalidProjectIndexes);
        }
        // Scan back to the latest round that is not canceled.
        let count = self.rounds.len();
        let mut i: usize = count;
        let mut found = false;
        while !found && i > 0
            invariant
                i <= count,
                count == self.rounds@.len(),
                *self == *old(self),
                found ==> i < count && !self.rounds@[i as int].is_canceled,
                forall|x: int| i < x < count ==> (#[trigger] self.rounds@[x]).is_canceled,
                !found ==> forall|x: int| i <= x < count ==> (#[trigger] self.rounds@[x]).is_canceled,
            decreases i,
        {
            if !self.rounds[i - 1].is_canceled {
                found = true;
            }
            i = i - 1;
        }
        let latest: Option<usize> = if found {
            Some(i)
        } else {
            None
        };
        let ghost rs = self.rounds@;
        match latest {
            Some(l) => {
                assert(!rs[l as int].is_canceled);
                assert(forall|x: int| l < x < count ==> (#[trigger] rs[x]).is_canceled);
                if start <= self.rounds[l].end {
                    return Err(Error::StartBlockNumberTooSmall);
                }
                assert(!overlaps_history(rs, start as nat)) by {
                    assert forall|x: int| 0 <= x < rs.len() && !(#[trigger] rs[x]).is_canceled implies start > rs[x].end by {
                        if x < l {
                            assert(rs[x].end < rs[l as int].start);
                            assert(round_wf(rs[l as int], self.projects@.len(), self.block_number as nat));
                        }
                    }
                }
            },
            None => {
                assert(!overlaps_history(rs, start as nat));
            },
        }
        if count >= u32::MAX as usize {
            return Err(Error::Overflow);
        }
        let round = Round::new(start, end, matching_fund, &project_indexes);
        self.rounds.push(round);
        self.events.push(Event::RoundCreated(count as u32));
        proof {
            let rs2 = self.rounds@;
            assert(rs2.drop_last() =~= rs);
            assert forall|x: int| 0 <= x < rs2.len() implies round_wf(
                #[trigger] rs2[x],
                self.projects@.len(),
                self.block_number as nat,
            ) by {
                if x == count {
                    let r = rs2[x];
                    assert forall|j: int| 0 <= j < r.proposals@.len() implies proposal_wf(
                        #[trigger] r.proposals@[j],
                        self.projects@.len(),
                        r.is_finalized,
                    ) by {
                        assert(crate::types::fresh_proposal(project_indexes@[j], r.proposals@[j]));
                        assert(project_indexes@[j] < project_count);
                    }
                } else {
                    assert(rs2[x] == rs[x]);
                }
            }
            assert forall|a: int, b: int|
                0 <= a < b < rs2.len() && !(#[trigger] rs2[a]).is_canceled && !(#[trigger] rs2[b]).is_canceled implies rs2[a].end
                < rs2[b].start by {
                if b == count {
                    assert(rs2[a] == rs[a]);
                } else {
                    assert(rs2[a] == rs[a] && rs2[b] == rs[b]);
                }
            }
        }
        Ok(count as u32)
    }

    /// Why `cancel_round` fails, if it does.
    pub open spec fn cancel_round_error(&self, origin: Origin, round_index: RoundIndex) -> Option<Error> {
        if origin is Signed {
            Some(Error::BadOrigin)
        } else if round_index >= self.rounds@.len() {
            Some(Error::NoActiveRound)
        } else if self.rounds@[round_index as int].start <= self.block_number {
            Some(Error::RoundStarted)
        } else if self.rounds@[round_index as int].is_canceled {
            Some(Error::RoundCanceled)
        } else {
            None
        }
    }

    /// Cancels a round that has not started yet.
    pub fn cancel_round(&mut self, origin: Origin, round_index: RoundIndex) -> (r: Result<(), Error>)
        requires
            old(self).wf(),
        ensures
            final(self).wf(),
            proposals_kept(*old(self), *final(self)),
            match r {
                Ok(()) => {
                    &&& old(self).cancel_round_error(origin, round_index) is None
                    &&& round_changed(old(self).rounds@, final(self).rounds@, round_index as int)
                    &&& ({
                        let (a, b) = (old(self).rounds@[round_index as int], final(self).rounds@[round_index as int]);
                        b.is_canceled && b.is_finalized == a.is_finalized && b.proposals@ == a.proposals@
                    })
                    &&& final(self).projects@ == old(self).projects@
                    &&& same_settings(*final(self), *old(self))
                    &&& final(self).events@ == old(self).events@.push(Event::RoundCanceled(round_index))
                },
                Err(e) => old(self).cancel_round_error(origin, round_index) == Some(e) && *final(self) == *old(self),
            },
    {
        if let Err(e) = ensure_root(origin) {
            return Err(e);
        }
        let ri = round_index as usize;
        if ri >= self.rounds.len() {
            return Err(Error::NoActiveRound);
        }
        if self.rounds[ri].start <= self.block_number {
            return Err(Error::RoundStarted);
        }
        if self.rounds[ri].is_canceled {
            return Err(Error::RoundCanceled);
        }
        let ghost rs = self.rounds@;
        proof {
            assert(round_wf(rs[ri as int], self.projects@.len(), self.block_number as nat));
        }
        self.rounds[ri].is_canceled = true;
        self.events.push(Event::RoundCanceled(round_index));
        proof {
            let rs2 = self.rounds@;
            assert forall|x: int| 0 <= x < rs2.len() implies round_wf(
                #[trigger] rs2[x],
                self.projects@.len(),
                self.block_number as nat,
            ) by {
                assert(round_wf(rs[x], self.projects@.len(), self.block_number as nat));
                if x == ri {
                    let r = rs2[x];
                    assert forall|j: int| 0 <= j < r.proposals@.len() implies proposal_wf(
                        #[trigger] r.proposals@[j],
                        self.projects@.len(),
                        r.is_finalized,
                    ) by {
                        assert(r.proposals@[j] == rs[x].proposals@[j]);
                    }
                }
            }
            assert forall|a: int, b: int|
                0 <= a < b < rs2.len() && !(#[trigger] rs2[a]).is_canceled && !(#[trigger] rs2[b]).is_canceled implies rs2[a].end
                < rs2[b].start by {
                assert(rs2[a] == rs[a] && rs2[b] == rs[b]);
            }
        }
        Ok(())
    }

    /// Why `finalize_round` fails, if it does.
    pub open spec fn finalize_round_error(&self, origin: Origin, round_index: RoundIndex) -> Option<Error> {
        if origin is Signed {
            Some(Error::BadOrigin)
        } else if round_index >= self.rounds@.len() {
            Some(Error::NoActiveRound)
        } else if self.rounds@[round_index as int].is_canceled {
            Some(Error::RoundCanceled)
        } else if self.rounds@[round_index as int].is_finalized {
            Some(Error::RoundFinalized)
        } else if self.block_number < self.rounds@[round_index as int].end {
            Some(Error::RoundNotEnded)
        } else if !matching_fits(
            self.rounds@[round_index as int].matching_fund as nat,
            self.rounds@[round_index as int].proposals@,
        ) {
            Some(Error::Overflow)
        } else {
            None
        }
    }

    /// Finalizes an ended round: fixes each proposal's matching fund at its
    /// CLR share of the round's pool.
    pub fn finalize_round(&mut self, origin: Origin, round_index: RoundIndex) -> (r: Result<(), Error>)
        requires
            old(self).wf(),
        ensures
            final(self).wf(),
            proposals_kept(*old(self), *final(self)),
            match r {
                Ok(()) => {
                    &&& old(self).finalize_round_error(origin, round_index) is None
                    &&& round_changed(old(self).rounds@, final(self).rounds@, round_index as int)
                    &&& ({
                        let (a, b) = (old(self).rounds@[round_index as int], final(self).rounds@[round_index as int]);
                        &&& b.is_finalized
                        &&& b.is_canceled == a.is_canceled
                        &&& b.proposals@.len() == a.proposals@.len()
                        &&& forall|k: int|
                            0 <= k < a.proposals@.len() ==> #[trigger] b.proposals@[k] == (Proposal {
                                matching_fund: matching_share(a.matching_fund as nat, a.proposals@, k) as u128,
                                ..a.proposals@[k]
                            })
                    })
                    &&& final(self).projects@ == old(self).projects@
                    &&& same_settings(*final(self), *old(self))
                    &&& final(self).events@ == old(self).events@.push(Event::RoundFinalized(round_index))
                },
                Err(e) => old(self).finalize_round_error(origin, round_index) == Some(e) && *final(self) == *old(self),
            },
    {
        if let Err(e) = ensure_root(origin) {
            return Err(e);
        }
        let ri = round_index as usize;
        if ri >= self.rounds.len() {
            return Err(Error::NoActiveRound);
        }
        if self.rounds[ri].is_canceled {
            return Err(Error::RoundCanceled);
        }
        if self.rounds[ri].is_finalized {
            return Err(Error::RoundFinalized);
        }
        if self.block_number < self.rounds[ri].end {
            return Err(Error::RoundNotEnded);
        }
        let shares = match calculate_matching_funds(self.rounds[ri].matching_fund, &self.rounds[ri].proposals) {
            Some(shares) => shares,
            None => {
                return Err(Error::Overflow);
            },
        };
        let ghost pre = *self;
        let ghost ps = self.rounds@[ri as int].proposals@;
        let ghost m = self.rounds@[ri as int].matching_fund as nat;
        let n = self.rounds[ri].proposals.len();
        let mut k: usize = 0;
        while k < n
            invariant
                n == ps.len(),
                shares@.len() == n,
                forall|x: int| 0 <= x < n ==> #[trigger] shares@[x] == matching_share(m, ps, x),
                ri < pre.rounds@.len(),
                k <= n,
                self.projects@ == pre.projects@,
                self.events@ == pre.events@,
                same_settings(*self, pre),
                round_changed(pre.rounds@, self.rounds@, ri as int),
                self.rounds@[ri as int].is_finalized == pre.rounds@[ri as int].is_finalized,
                self.rounds@[ri as int].is_canceled == pre.rounds@[ri as int].is_canceled,
                self.rounds@[ri as int].proposals@.len() == n,
                forall|x: int| 0 <= x < k ==> #[trigger] self.rounds@[ri as int].proposals@[x] == (Proposal {
                    matching_fund: matching_share(m, ps, x) as u128,
                    ..ps[x]
                }),
                forall|x: int| k <= x < n ==> #[trigger] self.rounds@[ri as int].proposals@[x] == ps[x],
                pre.rounds@[ri as int].proposals@ == ps,
                pre.rounds@[ri as int].matching_fund == m,
            decreases n - k,
        {
            self.rounds[ri].proposals[k].matching_fund = shares[k];
            k = k + 1;
        }
        self.rounds[ri].is_finalized = true;
        self.events.push(Event::RoundFinalized(round_index));
        proof {
            let (ra, rb) = (pre.rounds@, self.rounds@);
            let qs = rb[ri as int].proposals@;
            lemma_shares_unchanged(m, ps, qs);
            assert forall|x: int| 0 <= x < rb.len() implies round_wf(#[trigger] rb[x], self.projects@.len(), self.block_number as nat) by {
                assert(round_wf(ra[x], pre.projects@.len(), pre.block_number as nat));
                if x == ri {
                    assert forall|j: int| 0 <= j < qs.len() implies proposal_wf(#[trigger] qs[j], self.projects@.len(), true) by {
                        assert(proposal_wf(ps[j], pre.projects@.len(), false));
                    }
                    assert forall|j: int| 0 <= j < qs.len() implies (#[trigger] qs[j]).matching_fund == matching_share(
                        rb[x].matching_fund as nat,
                        qs,
                        j,
                    ) by {
                        assert(matching_share(m, qs, j) == matching_share(m, ps, j));
                    }
                }
            }
            assert forall|x: int, y: int|
                0 <= x < y < rb.len() && !(#[trigger] rb[x]).is_canceled && !(#[trigger] rb[y]).is_canceled implies rb[x].end
                < rb[y].start by {
                assert(ra[x].is_canceled == rb[x].is_canceled && ra[y].is_canceled == rb[y].is_canceled);
            }
        }
        Ok(())
    }

    /// Why `contribute` fails, if it does.
    pub open spec fn contribute_error(&self, origin: Origin, project_index: ProjectIndex, value: Balance) -> Option<Error> {
        if origin is Root {
            Some(Error::BadOrigin)
        } else if value == 0 {
            Some(Error::InvalidParam)
        } else if project_index >= self.projects@.len() {
            Some(Error::InvalidParam)
        } else {
            match last_active(self.rounds@, self.block_number as nat) {
                None => Some(Error::RoundNotProcessing),
                Some(ri) => match find_proposal(self.rounds@[ri].proposals@, project_index) {
                    None => Some(Error::NoActiveProposal),
                    Some(j) => {
                        let p = self.rounds@[ri].proposals@[j];
                        if p.is_canceled {
                            Some(Error::ProposalCanceled)
                        } else if origin matches Origin::Signed(who) && merge_overflows(p.contributions@, who, value as nat) {
                            Some(Error::Overflow)
                        } else {
                            None
                        }
                    },
                },
            }
        }
    }

    /// Records a contribution of `value` from the signer to project
    /// `project_index` in the latest active round; the transfer moves the
    /// value into the project's pot.
    pub fn contribute(&mut self, origin: Origin, project_index: ProjectIndex, value: Balance) -> (r: Result<Transfer, Error>)
        requires
            old(self).wf(),
        ensures
            final(self).wf(),
            proposals_kept(*old(self), *final(self)),
            match r {
                Ok(t) => {
                    &&& old(self).contribute_error(origin, project_index, value) is None
                    &&& origin matches Origin::Signed(who) && ({
                        let ri = last_active(old(self).rounds@, old(self).block_number as nat)->Some_0;
                        let j = find_proposal(old(self).rounds@[ri].proposals@, project_index)->Some_0;
                        let (a, b) = (old(self).rounds@[ri].proposals@[j], final(self).rounds@[ri].proposals@[j]);
                        &&& proposal_changed(old(self).rounds@, final(self).rounds@, ri, j)
                        &&& b.contributions@ == merged(a.contributions@, who, value as nat)
                        &&& b.is_approved == a.is_approved
                        &&& b.is_canceled == a.is_canceled
                        &&& b.is_withdrawn == a.is_withdrawn
                        &&& b.withdrawal_expiration == a.withdrawal_expiration
                        &&& b.matching_fund == a.matching_fund
                        &&& t == (Transfer {
                            from: LedgerAccount::User(who),
                            to: LedgerAccount::ProjectPot(project_index),
                            amount: value,
                        })
                        &&& final(self).events@ == old(self).events@.push(
                            Event::ContributeSucceed(who, project_index, value, old(self).block_number),
                        )
                    })
                    &&& final(self).projects@ == old(self).projects@
                    &&& same_settings(*final(self), *old(self))
                },
                Err(e) => old(self).contribute_error(origin, project_index, value) == Some(e) && *final(self) == *old(self),
            },
    {
        let who = match ensure_signed(origin) {
            Ok(who) => who,
            Err(e) => {
                return Err(e);
            },
        };
        if value == 0 {
            return Err(Error::InvalidParam);
        }
        if project_index as usize >= self.projects.len() {
            return Err(Error::InvalidParam);
        }
        let now = self.block_number;
        let ri = match latest_active(&self.rounds, now) {
            Some(ri) => ri,
            None => {
                return Err(Error::RoundNotProcessing);
            },
        };
        proof {
            lemma_last_active(self.rounds@, now as nat);
        }
        let j = match position_of(&self.rounds[ri].proposals, project_index) {
            Some(j) => j,
            None => {
                return Err(Error::NoActiveProposal);
            },
        };
        proof {
            lemma_find_proposal(self.rounds@[ri as int].proposals@, project_index);
        }
        if self.rounds[ri].proposals[j].is_canceled {
            return Err(Error::ProposalCanceled);
        }
        if contribution_overflows(&self.rounds[ri].proposals[j].contributions, who, value) {
            return Err(Error::Overflow);
        }
        let ghost pre = *self;
        add_contribution(&mut self.rounds[ri].proposals[j].contributions, who, value);
        self.events.push(Event::ContributeSucceed(who, project_index, value, now));
        proof {
            let a = pre.rounds@[ri as int];
            let b = self.rounds@[ri as int];
            assert(round_wf(a, pre.projects@.len(), now as nat));
            assert(proposal_wf(a.proposals@[j as int], pre.projects@.len(), a.is_finalized));
            crate::contribution::lemma_merged(a.proposals@[j as int].contributions@, who, value as nat);
            assert(!a.is_finalized);
            lemma_wf_after_proposal_change(pre, *self, ri as int, j as int);
        }
        Ok(Transfer { from: LedgerAccount::User(who), to: LedgerAccount::ProjectPot(project_index), amount: value })
    }

    /// Why `approve` fails, if it does.
    pub open spec fn approve_error(&self, origin: Origin, round_index: RoundIndex, project_index: ProjectIndex) -> Option<Error> {
        if origin is Signed {
            Some(Error::BadOrigin)
        } else if round_index >= self.rounds@.len() {
            Some(Error::NoActiveRound)
        } else {
            let round = self.rounds@[round_index as int];
            if !round.is_finalized {
                Some(Error::RoundNotFinalized)
            } else if round.is_canceled {
                Some(Error::RoundCanceled)
            } else if self.block_number < round.end {
                Some(Error::RoundNotEnded)
            } else {
                match find_proposal(round.proposals@, project_index) {
                    None => Some(Error::NoActiveProposal),
                    Some(j) => {
                        let p = round.proposals@[j];
                        if p.is_canceled {
                            Some(Error::ProposalCanceled)
                        } else if p.is_approved {
                            Some(Error::ProposalApproved)
                        } else if self.block_number + self.withdrawal_expiration > BlockNumber::MAX {
                            Some(Error::Overflow)
                        } else {
                            None
                        }
                    },
                }
            }
        }
    }

    /// Approves a proposal of a finalized round, opening its withdrawal window.
    pub fn approve(&mut self, origin: Origin, round_index: RoundIndex, project_index: ProjectIndex) -> (r: Result<(), Error>)
        requires
            old(self).wf(),
        ensures
            final(self).wf(),
            proposals_kept(*old(self), *final(self)),
            match r {
                Ok(()) => {
                    &&& old(self).approve_error(origin, round_index, project_index) is None
                    &&& ({
                        let ri = round_index as int;
                        let j = find_proposal(old(self).rounds@[ri].proposals@, project_index)->Some_0;
                        let a = old(self).rounds@[ri].proposals@[j];
                        &&& proposal_changed(old(self).rounds@, final(self).rounds@, ri, j)
                        &&& final(self).rounds@[ri].proposals@[j] == (Proposal {
                            is_approved: true,
                            withdrawal_expiration: (old(self).block_number + old(self).withdrawal_expiration) as u64,
                            ..a
                        })
                    })
                    &&& final(self).projects@ == old(self).projects@
                    &&& same_settings(*final(self), *old(self))
                    &&& final(self).events@ == old(self).events@.push(Event::ProposalApproved(round_index, project_index))
                },
                Err(e) => old(self).approve_error(origin, round_index, project_index) == Some(e) && *final(self) == *old(self),
            },
    {
        if let Err(e) = ensure_root(origin) {
            return Err(e);
        }
        let ri = round_index as usize;
        if ri >= self.rounds.len() {
            return Err(Error::NoActiveRound);
        }
        if !self.rounds[ri].is_finalized {
            return Err(Error::RoundNotFinalized);
        }
        if self.rounds[ri].is_canceled {
            return Err(Error::RoundCanceled);
        }
        let now = self.block_number;
        if now < self.rounds[ri].end {
            return Err(Error::RoundNotEnded);
        }
        let j = match position_of(&self.rounds[ri].proposals, project_index) {
            Some(j) => j,
            None => {
                return Err(Error::NoActiveProposal);
            },
        };
        proof {
            lemma_find_proposal(self.rounds@[ri as int].proposals@, project_index);
        }
        if self.rounds[ri].proposals[j].is_canceled {
            return Err(Error::ProposalCanceled);
        }
        if self.rounds[ri].proposals[j].is_approved {
            return Err(Error::ProposalApproved);
        }
        let expiration = match now.checked_add(self.withdrawal_expiration) {
            Some(x) => x,
            None => {
                return Err(Error::Overflow);
            },
        };
        let ghost pre = *self;
        self.rounds[ri].proposals[j].is_approved = true;
        self.rounds[ri].proposals[j].withdrawal_expiration = expiration;
        self.events.push(Event::ProposalApproved(round_index, project_index));
        proof {
            let a = pre.rounds@[ri as int];
            assert(round_wf(a, pre.projects@.len(), now as nat));
            assert(proposal_wf(a.proposals@[j as int], pre.projects@.len(), a.is_finalized));
            lemma_wf_after_proposal_change(pre, *self, ri as int, j as int);
        }
        Ok(())
    }

    /// Why `withdraw` fails, if it does.
    pub open spec fn withdraw_error(&self, origin: Origin, round_index: RoundIndex, project_index: ProjectIndex) -> Option<Error> {
        if origin is Root {
            Some(Error::BadOrigin)
        } else if project_index >= self.projects@.len() {
            Some(Error::NoActiveProposal)
        } else if origin != Origin::Signed(self.projects@[project_index as int].owner) {
            Some(Error::InvalidAccount)
        } else if round_index >= self.rounds@.len() {
            Some(Error::NoActiveRound)
        } else {
            match find_proposal(self.rounds@[round_index as int].proposals@, project_index) {
                None => Some(Error::NoActiveProposal),
                Some(j) => {
                    let p = self.rounds@[round_index as int].proposals@[j];
                    if !p.is_approved {
                        Some(Error::ProposalNotApproved)
                    } else if p.is_withdrawn {
                        Some(Error::ProposalWithdrawn)
                    } else if self.block_number > p.withdrawal_expiration {
                        Some(Error::WithdrawalExpirationExceed)
                    } else if value_total(p.contributions@) > Balance::MAX {
                        Some(Error::Overflow)
                    } else if self.block_number + self.withdrawal_expiration > BlockNumber::MAX {
                        Some(Error::Overflow)
                    } else {
                        None
                    }
                },
            }
        }
    }

    /// Whether `b` is `a` after the owner of project `project_index` withdrew
    /// its proposal in round `round_index`, receiving `transfers`.
    pub open spec fn withdrawn(
        a: Pallet,
        b: Pallet,
        round_index: RoundIndex,
        project_index: ProjectIndex,
        transfers: Seq<Transfer>,
    ) -> bool {
        let ri = round_index as int;
        let j = find_proposal(a.rounds@[ri].proposals@, project_index)->Some_0;
        let p = a.rounds@[ri].proposals@[j];
        let owner = LedgerAccount::User(a.projects@[project_index as int].owner);
        let raised = value_total(p.contributions@) as u128;
        &&& proposal_changed(a.rounds@, b.rounds@, ri, j)
        &&& b.rounds@[ri].proposals@[j] == (Proposal {
            is_withdrawn: true,
            withdrawal_expiration: (a.block_number + a.withdrawal_expiration) as u64,
            ..p
        })
        &&& transfers == seq![
            Transfer { from: LedgerAccount::Pot, to: owner, amount: p.matching_fund },
            Transfer { from: LedgerAccount::ProjectPot(project_index), to: owner, amount: raised },
        ]
        &&& b.projects@ == a.projects@
        &&& same_settings(b, a)
        &&& b.events@ == a.events@.push(Event::ProposalWithdrawn(round_index, project_index, p.matching_fund, raised))
    }

    /// Pays an approved proposal out to its project's owner: the matching fund
    /// from the pool and the raised contributions from the project's pot.
    pub fn withdraw(&mut self, origin: Origin, round_index: RoundIndex, project_index: ProjectIndex) -> (r: Result<Vec<Transfer>, Error>)
        requires
            old(self).wf(),
        ensures
            final(self).wf(),
            proposals_kept(*old(self), *final(self)),
            match r {
                Ok(transfers) => old(self).withdraw_error(origin, round_index, project_index) is None
                    && Pallet::withdrawn(*old(self), *final(self), round_index, project_index, transfers@),
                Err(e) => old(self).withdraw_error(origin, round_index, project_index) == Some(e) && *final(self) == *old(self),
            },
    {
        let who = match ensure_signed(origin) {
            Ok(who) => who,
            Err(e) => {
                return Err(e);
            },
        };
        let pi = project_index as usize;
        if pi >= self.projects.len() {
            return Err(Error::NoActiveProposal);
        }
        let owner = self.projects[pi].owner;
        if who != owner {
            return Err(Error::InvalidAccount);
        }
        let ri = round_index as usize;
        if ri >= self.rounds.len() {
            return Err(Error::NoActiveRound);
        }
        let j = match position_of(&self.rounds[ri].proposals, project_index) {
            Some(j) => j,
            None => {
                return Err(Error::NoActiveProposal);
            },
        };
        proof {
            lemma_find_proposal(self.rounds@[ri as int].proposals@, project_index);
        }
        let now = self.block_number;
        if !self.rounds[ri].proposals[j].is_approved {
            return Err(Error::ProposalNotApproved);
        }
        if self.rounds[ri].proposals[j].is_withdrawn {
            return Err(Error::ProposalWithdrawn);
        }
        if now > self.rounds[ri].proposals[j].withdrawal_expiration {
            return Err(Error::WithdrawalExpirationExceed);
        }
        let raised = match contribution_total(&self.rounds[ri].proposals[j].contributions) {
            Some(t) => t,
            None => {
                return Err(Error::Overflow);
            },
        };
        let expiration = match now.checked_add(self.withdrawal_expiration) {
            Some(x) => x,
            None => {
                return Err(Error::Overflow);
            },
        };
        let matching_fund = self.rounds[ri].proposals[j].matching_fund;
        let ghost pre = *self;
        self.rounds[ri].proposals[j].is_withdrawn = true;
        self.rounds[ri].proposals[j].withdrawal_expiration = expiration;
        self.events.push(Event::ProposalWithdrawn(round_index, project_index, matching_fund, raised));
        let mut transfers: Vec<Transfer> = Vec::new();
        transfers.push(Transfer { from: LedgerAccount::Pot, to: LedgerAccount::User(owner), amount: matching_fund });
        transfers.push(
            Transfer { from: LedgerAccount::ProjectPot(project_index), to: LedgerAccount::User(owner), amount: raised },
        );
        proof {
            let a = pre.rounds@[ri as int];
            assert(round_wf(a, pre.projects@.len(), now as nat));
            assert(proposal_wf(a.proposals@[j as int], pre.projects@.len(), a.is_finalized));
            lemma_wf_after_proposal_change(pre, *self, ri as int, j as int);
            assert(transfers@ =~= seq![
                Transfer { from: LedgerAccount::Pot, to: LedgerAccount::User(owner), amount: matching_fund },
                Transfer { from: LedgerAccount::ProjectPot(project_index), to: LedgerAccount::User(owner), amount: raised },
            ]);
        }
        Ok(transfers)
    }

    /// Why `cancel` fails, if it does.
    pub open spec fn cancel_error(&self, origin: Origin, round_index: RoundIndex, project_index: ProjectIndex) -> Option<Error> {
        if origin is Signed {
            Some(Error::BadOrigin)
        } else if round_index >= self.rounds@.len() {
            Some(Error::NoActiveRound)
        } else {
            let round = self.rounds@[round_index as int];
            if round.is_canceled {
                Some(Error::RoundCanceled)
            } else if round.is_finalized {
                Some(Error::RoundFinalized)
            } else {
                match find_proposal(round.proposals@, project_index) {
                    None => Some(Error::NoActiveProposal),
                    Some(j) => {
                        let p = round.proposals@[j];
                        if p.is_canceled {
                            Some(Error::ProposalCanceled)
                        } else if p.is_approved {
                            Some(Error::ProposalApproved)
                        } else {
                            None
                        }
                    },
                }
            }
        }
    }

    /// Cancels a proposal of a round that is neither canceled nor finalized;
    /// it then takes no contributions and gets no matching fund.
    pub fn cancel(&mut self, origin: Origin, round_index: RoundIndex, project_index: ProjectIndex) -> (r: Result<(), Error>)
        requires
            old(self).wf(),
        ensures
            final(self).wf(),
            proposals_kept(*old(self), *final(self)),
            match r {
                Ok(()) => {
                    &&& old(self).cancel_error(origin, round_index, project_index) is None
                    &&& ({
                        let ri = round_index as int;
                        let j = find_proposal(old(self).rounds@[ri].proposals@, project_index)->Some_0;
                        &&& proposal_changed(old(self).rounds@, final(self).rounds@, ri, j)
                        &&& final(self).rounds@[ri].proposals@[j] == (Proposal {
                            is_canceled: true,
                            ..old(self).rounds@[ri].proposals@[j]
                        })
                    })
                    &&& final(self).projects@ == old(self).projects@
                    &&& same_settings(*final(self), *old(self))
                    &&& final(self).events@ == old(self).events@.push(Event::ProposalCanceled(round_index, project_index))
                },
                Err(e) => old(self).cancel_error(origin, round_index, project_index) == Some(e) && *final(self) == *old(self),
            },
    {
        if let Err(e) = ensure_root(origin) {
            return Err(e);
        }
        let ri = round_index as usize;
        if ri >= self.rounds.len() {
            return Err(Error::NoActiveRound);
        }
        if self.rounds[ri].is_canceled {
            return Err(Error::RoundCanceled);
        }
        if self.rounds[ri].is_finalized {
            return Err(Error::RoundFinalized);
        }
        let j = match position_of(&self.rounds[ri].proposals, project_index) {
            Some(j) => j,
            None => {
                return Err(Error::NoActiveProposal);
            },
        };
        proof {
            lemma_find_proposal(self.rounds@[ri as int].proposals@, project_index);
        }
        if self.rounds[ri].proposals[j].is_canceled {
            return Err(Error::ProposalCanceled);
        }
        if self.rounds[ri].proposals[j].is_approved {
            return Err(Error::ProposalApproved);
        }
        let ghost pre = *self;
        self.rounds[ri].proposals[j].is_canceled = true;
        self.events.push(Event::ProposalCanceled(round_index, project_index));
        proof {
            let a = pre.rounds@[ri as int];
            let now = self.block_number;
            assert(round_wf(a, pre.projects@.len(), now as nat));
            assert(proposal_wf(a.proposals@[j as int], pre.projects@.len(), a.is_finalized));
            lemma_wf_after_proposal_change_canceled(pre, *self, ri as int, j as int);
        }
        Ok(())
    }
}

} // verus!
