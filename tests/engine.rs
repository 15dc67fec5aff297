use pallet_proposals::{
    calculate_matching_funds, contribution_total, contribution_weight, Config, Contribution, Error,
    Event, GenesisConfig, Judgement, LedgerAccount, Origin, Pallet, Proposal, Transfer,
};

const OWNER: u64 = 1;
const ALICE: u64 = 2;
const BOB: u64 = 3;
const WINDOW: u64 = 50;

fn setup() -> Pallet {
    let genesis = GenesisConfig {
        init_max_proposal_count_per_round: 5,
        init_withdrawal_expiration: WINDOW,
        init_is_identity_required: false,
    };
    genesis.build(Config { max_proposals_per_round: 10 })
}

fn create(p: &mut Pallet, owner: u64) -> u32 {
    p.create_project(
        Origin::Signed(owner),
        b"name".to_vec(),
        b"logo".to_vec(),
        b"description".to_vec(),
        b"website".to_vec(),
        &None,
    )
    .unwrap()
}

fn proposal(values: &[u128], canceled: bool) -> Proposal {
    Proposal {
        project_index: 0,
        contributions: values
            .iter()
            .enumerate()
            .map(|(i, v)| Contribution { account_id: i as u64, value: *v })
            .collect(),
        is_approved: false,
        is_canceled: canceled,
        is_withdrawn: false,
        withdrawal_expiration: 0,
        matching_fund: 0,
    }
}

#[test]
fn end_to_end_round() {
    let mut p = setup();
    assert_eq!(create(&mut p, OWNER), 0);
    assert_eq!(p.schedule_round(Origin::Root, 10, 20, 100, vec![0]), Ok(0));
    p.set_block_number(11);
    assert_eq!(
        p.contribute(Origin::Signed(ALICE), 0, 4),
        Ok(Transfer { from: LedgerAccount::User(ALICE), to: LedgerAccount::ProjectPot(0), amount: 4 })
    );
    assert!(p.contribute(Origin::Signed(BOB), 0, 1).is_ok());
    p.set_block_number(21);
    assert_eq!(p.finalize_round(Origin::Root, 0), Ok(()));
    assert_eq!(p.rounds[0].proposals[0].matching_fund, 100);
    assert_eq!(p.approve(Origin::Root, 0, 0), Ok(()));
    assert_eq!(p.rounds[0].proposals[0].withdrawal_expiration, 21 + WINDOW);
    p.set_block_number(30);
    let transfers = p.withdraw(Origin::Signed(OWNER), 0, 0).unwrap();
    assert_eq!(
        transfers,
        vec![
            Transfer { from: LedgerAccount::Pot, to: LedgerAccount::User(OWNER), amount: 100 },
            Transfer { from: LedgerAccount::ProjectPot(0), to: LedgerAccount::User(OWNER), amount: 5 },
        ]
    );
    let received: u128 = transfers.iter().map(|t| t.amount).sum();
    assert_eq!(received, 105);
    assert_eq!(p.events.last(), Some(&Event::ProposalWithdrawn(0, 0, 100, 5)));
}

#[test]
fn contributions_merge_per_account() {
    let mut p = setup();
    create(&mut p, OWNER);
    p.schedule_round(Origin::Root, 10, 20, 0, vec![0]).unwrap();
    p.set_block_number(12);
    for (who, v) in [(ALICE, 3u128), (BOB, 2), (ALICE, 4), (BOB, 1), (ALICE, 1)] {
        p.contribute(Origin::Signed(who), 0, v).unwrap();
    }
    assert_eq!(
        p.rounds[0].proposals[0].contributions,
        vec![Contribution { account_id: ALICE, value: 8 }, Contribution { account_id: BOB, value: 3 }]
    );
}

#[test]
fn contribute_errors() {
    let mut p = setup();
    create(&mut p, OWNER);
    assert_eq!(p.contribute(Origin::Signed(ALICE), 0, 1), Err(Error::RoundNotProcessing));
    p.schedule_round(Origin::Root, 10, 20, 0, vec![0]).unwrap();
    assert_eq!(p.contribute(Origin::Root, 0, 1), Err(Error::BadOrigin));
    assert_eq!(p.contribute(Origin::Signed(ALICE), 0, 0), Err(Error::InvalidParam));
    assert_eq!(p.contribute(Origin::Signed(ALICE), 1, 1), Err(Error::InvalidParam));
    assert_eq!(p.contribute(Origin::Signed(ALICE), 0, 1), Err(Error::RoundNotProcessing));
    create(&mut p, OWNER);
    p.set_block_number(15);
    assert_eq!(p.contribute(Origin::Signed(ALICE), 1, 1), Err(Error::NoActiveProposal));
    p.set_block_number(20);
    assert_eq!(p.contribute(Origin::Signed(ALICE), 0, 1), Err(Error::RoundNotProcessing));
}

#[test]
fn contribute_overflow_rejected() {
    let mut p = setup();
    create(&mut p, OWNER);
    p.schedule_round(Origin::Root, 10, 20, 0, vec![0]).unwrap();
    p.set_block_number(15);
    p.contribute(Origin::Signed(ALICE), 0, u128::MAX).unwrap();
    let before = p.rounds[0].proposals[0].contributions.clone();
    assert_eq!(p.contribute(Origin::Signed(ALICE), 0, 1), Err(Error::Overflow));
    assert_eq!(p.rounds[0].proposals[0].contributions, before);
}

#[test]
fn canceled_proposal_takes_nothing() {
    let mut p = setup();
    create(&mut p, OWNER);
    create(&mut p, OWNER);
    p.schedule_round(Origin::Root, 10, 20, 90, vec![0, 1]).unwrap();
    assert_eq!(p.cancel(Origin::Root, 0, 1), Ok(()));
    assert_eq!(p.cancel(Origin::Root, 0, 1), Err(Error::ProposalCanceled));
    assert_eq!(p.cancel(Origin::Root, 0, 7), Err(Error::NoActiveProposal));
    p.set_block_number(15);
    assert_eq!(p.contribute(Origin::Signed(ALICE), 1, 9), Err(Error::ProposalCanceled));
    p.contribute(Origin::Signed(ALICE), 0, 9).unwrap();
    p.set_block_number(25);
    p.finalize_round(Origin::Root, 0).unwrap();
    assert_eq!(p.rounds[0].proposals[0].matching_fund, 90);
    assert_eq!(p.rounds[0].proposals[1].matching_fund, 0);
    assert_eq!(p.approve(Origin::Root, 0, 1), Err(Error::ProposalCanceled));
    assert_eq!(p.cancel(Origin::Root, 0, 0), Err(Error::RoundFinalized));
}

#[test]
fn finalize_twice_fails() {
    let mut p = setup();
    create(&mut p, OWNER);
    create(&mut p, OWNER);
    p.schedule_round(Origin::Root, 10, 20, 10, vec![0, 1]).unwrap();
    p.set_block_number(11);
    p.contribute(Origin::Signed(ALICE), 0, 4).unwrap();
    p.contribute(Origin::Signed(BOB), 1, 1).unwrap();
    assert_eq!(p.finalize_round(Origin::Root, 0), Err(Error::RoundNotEnded));
    p.set_block_number(20);
    assert_eq!(p.finalize_round(Origin::Root, 0), Ok(()));
    let funds: Vec<u128> = p.rounds[0].proposals.iter().map(|x| x.matching_fund).collect();
    assert_eq!(funds, vec![8, 2]);
    assert_eq!(p.finalize_round(Origin::Root, 0), Err(Error::RoundFinalized));
    let again: Vec<u128> = p.rounds[0].proposals.iter().map(|x| x.matching_fund).collect();
    assert_eq!(again, funds);
    assert_eq!(p.finalize_round(Origin::Root, 1), Err(Error::NoActiveRound));
    assert_eq!(p.finalize_round(Origin::Signed(ALICE), 0), Err(Error::BadOrigin));
}

#[test]
fn shares_never_exceed_pool() {
    let ps = vec![proposal(&[1], false), proposal(&[1], false), proposal(&[1], false), proposal(&[100], true)];
    let shares = calculate_matching_funds(100, &ps).unwrap();
    assert_eq!(shares, vec![33, 33, 33, 0]);
    let total: u128 = shares.iter().sum();
    assert!(total <= 100);
    assert!(100 - total <= 3);
}

#[test]
fn zero_contributions_zero_matching() {
    let mut p = setup();
    create(&mut p, OWNER);
    create(&mut p, OWNER);
    p.schedule_round(Origin::Root, 10, 20, 1000, vec![0, 1]).unwrap();
    p.set_block_number(30);
    assert_eq!(p.finalize_round(Origin::Root, 0), Ok(()));
    assert_eq!(p.rounds[0].proposals[0].matching_fund, 0);
    assert_eq!(p.rounds[0].proposals[1].matching_fund, 0);
    assert_eq!(calculate_matching_funds(1000, &vec![proposal(&[], false)]), Some(vec![0]));
}

#[test]
fn spread_contributions_weigh_more() {
    let spread = vec![
        Contribution { account_id: 1, value: 1 },
        Contribution { account_id: 2, value: 1 },
        Contribution { account_id: 3, value: 1 },
        Contribution { account_id: 4, value: 1 },
    ];
    let single = vec![Contribution { account_id: 1, value: 4 }];
    assert_eq!(contribution_weight(&spread), Some(16));
    assert_eq!(contribution_weight(&single), Some(4));
    assert_eq!(contribution_total(&spread), Some(4));
    assert_eq!(contribution_total(&single), Some(4));
}

#[test]
fn weight_uses_floor_square_root() {
    let cs = vec![Contribution { account_id: 1, value: 8 }, Contribution { account_id: 2, value: 3 }];
    // floor(sqrt(8)) + floor(sqrt(3)) = 2 + 1
    assert_eq!(contribution_weight(&cs), Some(9));
    let big = vec![Contribution { account_id: 1, value: u128::MAX }];
    assert_eq!(contribution_weight(&big), Some(18446744073709551615u128 * 18446744073709551615u128));
    let two = vec![Contribution { account_id: 1, value: u128::MAX }, Contribution { account_id: 2, value: u128::MAX }];
    assert_eq!(contribution_weight(&two), None);
}

#[test]
fn overlapping_round_rejected() {
    let mut p = setup();
    create(&mut p, OWNER);
    p.schedule_round(Origin::Root, 10, 20, 0, vec![0]).unwrap();
    assert_eq!(p.schedule_round(Origin::Root, 20, 30, 0, vec![0]), Err(Error::StartBlockNumberTooSmall));
    assert_eq!(p.schedule_round(Origin::Root, 15, 30, 0, vec![0]), Err(Error::StartBlockNumberTooSmall));
    assert_eq!(p.schedule_round(Origin::Root, 21, 30, 0, vec![0]), Ok(1));
    assert_eq!(p.cancel_round(Origin::Root, 1), Ok(()));
    // the canceled round in between does not hide the first one
    assert_eq!(p.schedule_round(Origin::Root, 18, 40, 0, vec![0]), Err(Error::StartBlockNumberTooSmall));
    assert_eq!(p.schedule_round(Origin::Root, 25, 40, 0, vec![0]), Ok(2));
    assert_eq!(p.cancel_round(Origin::Root, 0), Ok(()));
    assert_eq!(p.schedule_round(Origin::Root, 5, 9, 0, vec![0]), Err(Error::StartBlockNumberTooSmall));
}

#[test]
fn schedule_round_validation() {
    let mut p = setup();
    create(&mut p, OWNER);
    assert_eq!(p.schedule_round(Origin::Signed(ALICE), 10, 20, 0, vec![0]), Err(Error::BadOrigin));
    assert_eq!(p.schedule_round(Origin::Root, 10, 20, 0, vec![]), Err(Error::InvalidProjectIndexes));
    assert_eq!(p.schedule_round(Origin::Root, 10, 20, 0, vec![0; 6]), Err(Error::ProposalAmountExceed));
    assert_eq!(p.schedule_round(Origin::Root, 20, 20, 0, vec![0]), Err(Error::EndTooEarly));
    p.set_block_number(10);
    assert_eq!(p.schedule_round(Origin::Root, 10, 20, 0, vec![0]), Err(Error::StartBlockNumberInvalid));
    assert_eq!(p.schedule_round(Origin::Root, 11, 20, 0, vec![1]), Err(Error::InvalidProjectIndexes));
    assert_eq!(p.schedule_round(Origin::Root, 11, 20, 0, vec![0, 0]), Ok(0));
    assert_eq!(p.rounds[0].proposals.len(), 2);
    assert_eq!(p.round_count(), 1);
    assert_eq!(p.events.last(), Some(&Event::RoundCreated(0)));
}

#[test]
fn cancel_round_rules() {
    let mut p = setup();
    create(&mut p, OWNER);
    p.schedule_round(Origin::Root, 10, 20, 0, vec![0]).unwrap();
    assert_eq!(p.cancel_round(Origin::Root, 3), Err(Error::NoActiveRound));
    assert_eq!(p.cancel_round(Origin::Signed(OWNER), 0), Err(Error::BadOrigin));
    assert_eq!(p.cancel_round(Origin::Root, 0), Ok(()));
    assert_eq!(p.events.last(), Some(&Event::RoundCanceled(0)));
    assert_eq!(p.cancel_round(Origin::Root, 0), Err(Error::RoundCanceled));
    p.schedule_round(Origin::Root, 30, 40, 0, vec![0]).unwrap();
    p.set_block_number(30);
    assert_eq!(p.cancel_round(Origin::Root, 1), Err(Error::RoundStarted));
    p.set_block_number(35);
    assert_eq!(p.contribute(Origin::Signed(ALICE), 0, 1).map(|t| t.amount), Ok(1));
    assert_eq!(p.finalize_round(Origin::Root, 0), Err(Error::RoundCanceled));
}

#[test]
fn withdraw_twice_fails() {
    let mut p = setup();
    create(&mut p, OWNER);
    p.schedule_round(Origin::Root, 10, 20, 100, vec![0]).unwrap();
    p.set_block_number(11);
    p.contribute(Origin::Signed(ALICE), 0, 9).unwrap();
    p.set_block_number(21);
    assert_eq!(p.withdraw(Origin::Signed(OWNER), 0, 0), Err(Error::ProposalNotApproved));
    p.finalize_round(Origin::Root, 0).unwrap();
    p.approve(Origin::Root, 0, 0).unwrap();
    assert_eq!(p.approve(Origin::Root, 0, 0), Err(Error::ProposalApproved));
    assert_eq!(p.withdraw(Origin::Signed(ALICE), 0, 0), Err(Error::InvalidAccount));
    assert_eq!(p.withdraw(Origin::Signed(OWNER), 0, 4), Err(Error::NoActiveProposal));
    assert_eq!(p.withdraw(Origin::Signed(OWNER), 2, 0), Err(Error::NoActiveRound));
    assert_eq!(p.withdraw(Origin::Root, 0, 0), Err(Error::BadOrigin));
    assert_eq!(p.withdraw(Origin::Signed(OWNER), 0, 0).map(|t| t.len()), Ok(2));
    assert!(p.rounds[0].proposals[0].is_withdrawn);
    assert_eq!(p.withdraw(Origin::Signed(OWNER), 0, 0), Err(Error::ProposalWithdrawn));
    // still refused as already paid once the refreshed window has passed
    p.set_block_number(21 + 10 * WINDOW);
    assert_eq!(p.withdraw(Origin::Signed(OWNER), 0, 0), Err(Error::ProposalWithdrawn));
}

#[test]
fn withdraw_unapproved_after_end() {
    let mut p = setup();
    create(&mut p, OWNER);
    p.schedule_round(Origin::Root, 10, 20, 100, vec![0]).unwrap();
    p.set_block_number(500);
    p.finalize_round(Origin::Root, 0).unwrap();
    assert_eq!(p.withdraw(Origin::Signed(OWNER), 0, 0), Err(Error::ProposalNotApproved));
}

#[test]
fn withdraw_after_window_fails() {
    let mut p = setup();
    create(&mut p, OWNER);
    p.schedule_round(Origin::Root, 10, 20, 100, vec![0]).unwrap();
    p.set_block_number(20);
    p.finalize_round(Origin::Root, 0).unwrap();
    p.approve(Origin::Root, 0, 0).unwrap();
    p.set_block_number(20 + WINDOW + 1);
    assert_eq!(p.withdraw(Origin::Signed(OWNER), 0, 0), Err(Error::WithdrawalExpirationExceed));
}

#[test]
fn approve_requires_finalized_round() {
    let mut p = setup();
    create(&mut p, OWNER);
    p.schedule_round(Origin::Root, 10, 20, 100, vec![0]).unwrap();
    assert_eq!(p.approve(Origin::Root, 0, 0), Err(Error::RoundNotFinalized));
    assert_eq!(p.approve(Origin::Root, 1, 0), Err(Error::NoActiveRound));
    assert_eq!(p.approve(Origin::Signed(OWNER), 0, 0), Err(Error::BadOrigin));
    p.set_block_number(20);
    p.finalize_round(Origin::Root, 0).unwrap();
    assert_eq!(p.approve(Origin::Root, 0, 3), Err(Error::NoActiveProposal));
    assert_eq!(p.approve(Origin::Root, 0, 0), Ok(()));
}

#[test]
fn create_project_rules() {
    let mut p = setup();
    assert_eq!(
        p.create_project(Origin::Root, b"n".to_vec(), b"l".to_vec(), b"d".to_vec(), b"w".to_vec(), &None),
        Err(Error::BadOrigin)
    );
    assert_eq!(
        p.create_project(Origin::Signed(OWNER), vec![], b"l".to_vec(), b"d".to_vec(), b"w".to_vec(), &None),
        Err(Error::InvalidParam)
    );
    assert_eq!(
        p.create_project(Origin::Signed(OWNER), b"n".to_vec(), b"l".to_vec(), b"d".to_vec(), vec![], &None),
        Err(Error::InvalidParam)
    );
    p.set_block_number(7);
    assert_eq!(create(&mut p, OWNER), 0);
    assert_eq!(create(&mut p, ALICE), 1);
    assert_eq!(p.project_count(), 2);
    let projects = p.get_projects();
    assert_eq!(projects.len(), 2);
    assert_eq!(projects[1].owner, ALICE);
    assert_eq!(projects[0].name, b"name".to_vec());
    assert_eq!(projects[0].create_block_number, 7);
    assert_eq!(p.events, vec![Event::ProjectCreated(0), Event::ProjectCreated(1)]);
}

#[test]
fn identity_gate() {
    let mut p = setup();
    assert_eq!(p.set_is_identity_required(Origin::Signed(OWNER), true), Err(Error::BadOrigin));
    p.set_is_identity_required(Origin::Root, true).unwrap();
    let args = || (b"n".to_vec(), b"l".to_vec(), b"d".to_vec(), b"w".to_vec());
    let (n, l, d, w) = args();
    assert_eq!(p.create_project(Origin::Signed(OWNER), n, l, d, w, &None), Err(Error::IdentityNeeded));
    let (n, l, d, w) = args();
    let weak = Some(vec![Judgement::FeePaid(3), Judgement::LowQuality]);
    assert_eq!(p.create_project(Origin::Signed(OWNER), n, l, d, w, &weak), Err(Error::IdentityNeeded));
    let (n, l, d, w) = args();
    let good = Some(vec![Judgement::Unknown, Judgement::KnownGood]);
    assert_eq!(p.create_project(Origin::Signed(OWNER), n, l, d, w, &good), Ok(0));
}

#[test]
fn admin_settings() {
    let mut p = setup();
    assert_eq!(p.set_max_proposal_count_per_round(Origin::Root, 0), Err(Error::ParamLimitExceed));
    assert_eq!(p.set_max_proposal_count_per_round(Origin::Root, 11), Err(Error::ParamLimitExceed));
    assert_eq!(p.set_max_proposal_count_per_round(Origin::Signed(OWNER), 3), Err(Error::BadOrigin));
    assert_eq!(p.set_max_proposal_count_per_round(Origin::Root, 10), Ok(()));
    assert_eq!(p.max_proposal_count_per_round, 10);
    assert_eq!(p.set_withdrawal_expiration(Origin::Root, 0), Err(Error::InvalidParam));
    assert_eq!(p.set_withdrawal_expiration(Origin::Root, 9), Ok(()));
    assert_eq!(p.withdrawal_expiration, 9);
    let d = GenesisConfig::default();
    assert_eq!(d.init_max_proposal_count_per_round, 5);
    assert_eq!(d.init_withdrawal_expiration, 0);
    assert!(!d.init_is_identity_required);
}

#[test]
fn fund_moves_into_pot() {
    let mut p = setup();
    assert_eq!(p.fund(Origin::Signed(ALICE), 0), Err(Error::InvalidParam));
    assert_eq!(p.fund(Origin::Root, 5), Err(Error::BadOrigin));
    assert_eq!(
        p.fund(Origin::Signed(ALICE), 5),
        Ok(Transfer { from: LedgerAccount::User(ALICE), to: LedgerAccount::Pot, amount: 5 })
    );
    assert_eq!(p.events, vec![Event::FundSucceed()]);
    assert_eq!(Pallet::account_id(), LedgerAccount::Pot);
    assert_eq!(Pallet::project_account_id(4), LedgerAccount::ProjectPot(4));
}

#[test]
fn add_contribution_merges() {
    let mut cs = vec![Contribution { account_id: 5, value: 2 }];
    pallet_proposals::add_contribution(&mut cs, 6, 3);
    pallet_proposals::add_contribution(&mut cs, 5, 4);
    assert_eq!(cs, vec![Contribution { account_id: 5, value: 6 }, Contribution { account_id: 6, value: 3 }]);
}
