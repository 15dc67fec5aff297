use vstd::prelude::*;
use crate::matching::{funded_total, lemma_shares_within_pool, live_count, total_weight};
use crate::pallet::{Pallet, proposal_wf, proposals_kept, round_wf};
use crate::rounds::{find_proposal, lemma_find_proposal, overlaps_history, proposal_changed};
use crate::types::{BlockNumber, Error, Origin, ProjectIndex, Proposal, RoundIndex, Transfer};

verus! {

/// Finalization happens once: on a finalized round, `finalize_round` fails
/// with `RoundFinalized` (and a failed call changes nothing).
pub proof fn lemma_finalize_once(p: Pallet, round_index: RoundIndex)
    requires
        p.wf(),
        round_index < p.rounds@.len(),
        p.rounds@[round_index as int].is_finalized,
    ensures
        p.finalize_round_error(Origin::Root, round_index) == Some(Error::RoundFinalized),
{
    assert(round_wf(p.rounds@[round_index as int], p.projects@.len(), p.block_number as nat));
}

/// In a finalized round, the matching funds of the proposals that are not
/// canceled add up to at most the round's pool; when some proposal has
/// weight, they fall short of it by at most one unit per such proposal.
pub proof fn lemma_finalized_round_within_pool(p: Pallet, round_index: RoundIndex)
    requires
        p.wf(),
        round_index < p.rounds@.len(),
        p.rounds@[round_index as int].is_finalized,
    ensures
        ({
            let r = p.rounds@[round_index as int];
            &&& funded_total(r.proposals@) <= r.matching_fund
            &&& total_weight(r.proposals@) > 0 ==> r.matching_fund <= funded_total(r.proposals@) + live_count(
                r.proposals@,
            )
        }),
{
    let r = p.rounds@[round_index as int];
    assert(round_wf(r, p.projects@.len(), p.block_number as nat));
    lemma_shares_within_pool(r.matching_fund as nat, r.proposals@);
}

/// Rounds never overlap: scheduling a round that starts no later than the end
/// of a round that is not canceled fails, whatever was canceled in between.
pub proof fn lemma_overlap_rejected(
    p: Pallet,
    origin: Origin,
    start: BlockNumber,
    end: BlockNumber,
    project_indexes: Seq<ProjectIndex>,
    earlier: int,
)
    requires
        p.wf(),
        0 <= earlier < p.rounds@.len(),
        !p.rounds@[earlier].is_canceled,
        start <= p.rounds@[earlier].end,
    ensures
        p.schedule_round_error(origin, start, end, project_indexes) is Some,
        overlaps_history(p.rounds@, start as nat),
{
    assert(overlaps_history(p.rounds@, start as nat));
}

proof fn lemma_find_proposal_same_projects(ps: Seq<Proposal>, qs: Seq<Proposal>, pi: ProjectIndex)
    requires
        ps.len() == qs.len(),
        forall|k: int| 0 <= k < ps.len() ==> (#[trigger] qs[k]).project_index == ps[k].project_index,
    ensures
        find_proposal(qs, pi) == find_proposal(ps, pi),
    decreases ps.len(),
{
    if ps.len() > 0 {
        let (p0, q0) = (ps.drop_last(), qs.drop_last());
        assert forall|k: int| 0 <= k < p0.len() implies (#[trigger] q0[k]).project_index == p0[k].project_index by {
            assert(q0[k] == qs[k] && p0[k] == ps[k]);
        }
        lemma_find_proposal_same_projects(p0, q0, pi);
        assert(qs.last() == qs[qs.len() - 1] && ps.last() == ps[ps.len() - 1]);
    }
}

/// A proposal that was paid out cannot be paid again: at any height, its
/// owner's `withdraw` fails with `ProposalWithdrawn`.
pub proof fn lemma_withdrawn_stays_paid(p: Pallet, round_index: RoundIndex, project_index: ProjectIndex)
    requires
        p.wf(),
        round_index < p.rounds@.len(),
        project_index < p.projects@.len(),
        find_proposal(p.rounds@[round_index as int].proposals@, project_index) matches Some(j)
            && p.rounds@[round_index as int].proposals@[j].is_withdrawn,
    ensures
        p.withdraw_error(Origin::Signed(p.projects@[project_index as int].owner), round_index, project_index)
            == Some(Error::ProposalWithdrawn),
{
    let r = p.rounds@[round_index as int];
    lemma_find_proposal(r.proposals@, project_index);
    let j = find_proposal(r.proposals@, project_index)->Some_0;
    assert(round_wf(r, p.projects@.len(), p.block_number as nat));
    assert(proposal_wf(r.proposals@[j], p.projects@.len(), r.is_finalized));
}

/// `proposals_kept` composes along a sequence of operations.
pub proof fn lemma_proposals_kept_trans(a: Pallet, b: Pallet, c: Pallet)
    requires
        proposals_kept(a, b),
        proposals_kept(b, c),
    ensures
        proposals_kept(a, c),
{
    assert forall|ri: int, j: int|
        0 <= ri < a.rounds@.len() && 0 <= j < a.rounds@[ri].proposals@.len() implies {
            &&& (#[trigger] c.rounds@[ri].proposals@[j]).project_index == a.rounds@[ri].proposals@[j].project_index
            &&& a.rounds@[ri].proposals@[j].is_withdrawn ==> c.rounds@[ri].proposals@[j].is_withdrawn
        } by {
        assert(b.rounds@[ri].proposals@.len() == a.rounds@[ri].proposals@.len());
        assert(b.rounds@[ri].proposals@[j].project_index == a.rounds@[ri].proposals@[j].project_index);
    }
    assert forall|i: int| 0 <= i < a.projects@.len() implies #[trigger] c.projects@[i].owner == a.projects@[i].owner by {
        assert(b.projects@[i].owner == a.projects@[i].owner);
    }
    assert forall|ri: int| 0 <= ri < a.rounds@.len() implies (#[trigger] c.rounds@[ri]).proposals@.len()
        == a.rounds@[ri].proposals@.len() by {
        assert(b.rounds@[ri].proposals@.len() == a.rounds@[ri].proposals@.len());
    }
}

/// A proposal is paid out at most once: after a successful `withdraw`, and
/// whatever operations follow (each keeps `proposals_kept`), the same call
/// fails with `ProposalWithdrawn`, so no transfer is made again.
pub proof fn lemma_withdraw_once(
    a: Pallet,
    b: Pallet,
    later: Pallet,
    origin: Origin,
    round_index: RoundIndex,
    project_index: ProjectIndex,
    transfers: Seq<Transfer>,
)
    requires
        a.wf(),
        a.withdraw_error(origin, round_index, project_index) is None,
        Pallet::withdrawn(a, b, round_index, project_index, transfers),
        later.wf(),
        proposals_kept(b, later),
    ensures
        later.withdraw_error(origin, round_index, project_index) == Some(Error::ProposalWithdrawn),
{
    let ri = round_index as int;
    let (ps, qs, ls) = (a.rounds@[ri].proposals@, b.rounds@[ri].proposals@, later.rounds@[ri].proposals@);
    lemma_find_proposal(ps, project_index);
    let j = find_proposal(ps, project_index)->Some_0;
    assert(proposal_changed(a.rounds@, b.rounds@, ri, j));
    assert forall|k: int| 0 <= k < ps.len() implies (#[trigger] qs[k]).project_index == ps[k].project_index by {
        if k != j {
            assert(qs[k] == ps[k]);
        }
    }
    lemma_find_proposal_same_projects(ps, qs, project_index);
    assert forall|k: int| 0 <= k < qs.len() implies (#[trigger] ls[k]).project_index == qs[k].project_index by {
        assert(later.rounds@[ri].proposals@[k].project_index == b.rounds@[ri].proposals@[k].project_index);
    }
    lemma_find_proposal_same_projects(qs, ls, project_index);
    assert(ls[j].is_withdrawn);
    assert(later.projects@[project_index as int].owner == b.projects@[project_index as int].owner);
    lemma_withdrawn_stays_paid(later, round_index, project_index);
}

} // verus!
