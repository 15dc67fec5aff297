use vstd::prelude::*;
use crate::types::{AccountId, Balance, Contribution};

verus! {

/// The position of `who`'s entry in `cs`, the first one if several.
pub open spec fn find_account(cs: Seq<Contribution>, who: AccountId) -> Option<int>
    decreases cs.len(),
{
    if cs.len() == 0 {
        None
    } else {
        match find_account(cs.drop_last(), who) {
            Some(k) => Some(k),
            None => if cs.last().account_id == who {
                Some(cs.len() - 1)
            } else {
                None
            },
        }
    }
}

/// The sum of the contribution values.
pub open spec fn value_total(cs: Seq<Contribution>) -> nat
    decreases cs.len(),
{
    if cs.len() == 0 {
        0
    } else {
        value_total(cs.drop_last()) + cs.last().value as nat
    }
}

/// At most one entry per account, and every value strictly positive.
pub open spec fn contributions_wf(cs: Seq<Contribution>) -> bool {
    &&& forall|a: int, b: int|
        0 <= a < b < cs.len() ==> (#[trigger] cs[a]).account_id != (#[trigger] cs[b]).account_id
    &&& forall|a: int| 0 <= a < cs.len() ==> (#[trigger] cs[a]).value > 0
}

/// Whether adding `value` to `who`'s entry would overflow a balance.
pub open spec fn merge_overflows(cs: Seq<Contribution>, who: AccountId, value: nat) -> bool {
    match find_account(cs, who) {
        Some(k) => cs[k].value + value > Balance::MAX,
        None => value > Balance::MAX,
    }
}

/// `cs` after `who` contributes `value`: added to `who`'s entry, or appended
/// as a new entry when `who` has none.
pub open spec fn merged(cs: Seq<Contribution>, who: AccountId, value: nat) -> Seq<Contribution> {
    match find_account(cs, who) {
        Some(k) => cs.update(k, Contribution { account_id: who, value: (cs[k].value + value) as u128 }),
        None => cs.push(Contribution { account_id: who, value: value as u128 }),
    }
}

/// The total recorded for account `a` in `cs`.
pub open spec fn amount_of(cs: Seq<Contribution>, a: AccountId) -> nat
    decreases cs.len(),
{
    if cs.len() == 0 {
        0
    } else {
        amount_of(cs.drop_last(), a) + if cs.last().account_id == a {
            cs.last().value as nat
        } else {
            0nat
        }
    }
}

pub proof fn lemma_find_account(cs: Seq<Contribution>, who: AccountId)
    ensures
        find_account(cs, who) matches Some(k) ==> 0 <= k < cs.len() && cs[k].account_id == who
            && forall|i: int| 0 <= i < k ==> (#[trigger] cs[i]).account_id != who,
        find_account(cs, who) is None ==> forall|i: int| 0 <= i < cs.len() ==> (#[trigger] cs[i]).account_id != who,
    decreases cs.len(),
{
    if cs.len() > 0 {
        let rest = cs.drop_last();
        lemma_find_account(rest, who);
        assert(forall|i: int| 0 <= i < rest.len() ==> rest[i] == cs[i]);
    }
}

proof fn lemma_find_account_prefix(cs: Seq<Contribution>, who: AccountId, i: int)
    requires
        0 <= i <= cs.len(),
        forall|k: int| 0 <= k < i ==> (#[trigger] cs[k]).account_id != who,
    ensures
        find_account(cs.subrange(0, i), who) is None,
    decreases i,
{
    if i > 0 {
        let s = cs.subrange(0, i);
        assert(s.drop_last() =~= cs.subrange(0, i - 1));
        lemma_find_account_prefix(cs, who, i - 1);
    }
}

proof fn lemma_find_account_extend(cs: Seq<Contribution>, who: AccountId, i: int)
    requires
        0 <= i <= cs.len(),
        find_account(cs.subrange(0, i), who) is Some,
    ensures
        find_account(cs, who) == find_account(cs.subrange(0, i), who),
    decreases cs.len() - i,
{
    if i < cs.len() {
        assert(cs.subrange(0, i + 1).drop_last() =~= cs.subrange(0, i));
        lemma_find_account_extend(cs, who, i + 1);
    } else {
        assert(cs.subrange(0, i) =~= cs);
    }
}

/// In a well-formed list, the amount of an account is its entry's value, or
/// nothing when it has no entry.
proof fn lemma_amount_of_entry(cs: Seq<Contribution>, a: AccountId)
    requires
        contributions_wf(cs),
    ensures
        amount_of(cs, a) == match find_account(cs, a) {
            Some(k) => cs[k].value as nat,
            None => 0nat,
        },
    decreases cs.len(),
{
    if cs.len() > 0 {
        let rest = cs.drop_last();
        assert(forall|i: int| 0 <= i < rest.len() ==> rest[i] == cs[i]);
        lemma_amount_of_entry(rest, a);
        lemma_find_account(rest, a);
        lemma_find_account(cs, a);
        if cs.last().account_id == a {
            if let Some(k) = find_account(rest, a) {
                assert(cs[k].account_id == cs[cs.len() - 1].account_id);
            }
        }
    }
}

/// Adding `value` for `who` keeps the list well formed, adds `value` to
/// `who`'s amount and leaves every other account's amount as it was.
pub proof fn lemma_merged(cs: Seq<Contribution>, who: AccountId, value: nat)
    requires
        contributions_wf(cs),
        value > 0,
        !merge_overflows(cs, who, value),
    ensures
        contributions_wf(merged(cs, who, value)),
        forall|a: AccountId|
            #[trigger] amount_of(merged(cs, who, value), a) == amount_of(cs, a) + if a == who {
                value
            } else {
                0nat
            },
{
    let m = merged(cs, who, value);
    lemma_find_account(cs, who);
    assert forall|a: AccountId|
        #[trigger] amount_of(m, a) == amount_of(cs, a) + if a == who {
            value
        } else {
            0nat
        } by {
        lemma_amount_of_entry(cs, a);
        lemma_find_account(cs, a);
        lemma_find_account(m, a);
        lemma_amount_of_entry(m, a);
        match find_account(cs, who) {
            Some(k) => {
                if let Some(x) = find_account(m, a) {
                    if let Some(y) = find_account(cs, a) {
                        assert(m[y].account_id == a);
                        assert(x == y);
                    }
                } else {
                    if let Some(y) = find_account(cs, a) {
                        assert(m[y].account_id == a);
                    }
                }
            },
            None => {
                if let Some(x) = find_account(m, a) {
                    if x < cs.len() {
                        assert(m[x] == cs[x]);
                        if let Some(y) = find_account(cs, a) {
                            assert(x == y);
                        }
                    }
                } else {
                    if let Some(y) = find_account(cs, a) {
                        assert(m[y] == cs[y]);
                    }
                }
            },
        }
    }
}

/// The position of `who`'s entry.
pub fn account_position(contributions: &Vec<Contribution>, who: AccountId) -> (r: Option<usize>)
    ensures
        match r {
            Some(k) => find_account(contributions@, who) == Some(k as int),
            None => find_account(contributions@, who) is None,
        },
{
    let ghost cs = contributions@;
    let mut i: usize = 0;
    while i < contributions.len()
        invariant
            i <= cs.len(),
            cs == contributions@,
            forall|k: int| 0 <= k < i ==> (#[trigger] cs[k]).account_id != who,
        decreases cs.len() - i,
    {
        if contributions[i].account_id == who {
            proof {
                lemma_find_account_prefix(cs, who, i as int);
                assert(cs.subrange(0, i + 1).drop_last() =~= cs.subrange(0, i as int));
                assert(cs.subrange(0, i + 1).last() == cs[i as int]);
                lemma_find_account_extend(cs, who, i + 1);
            }
            return Some(i);
        }
        i = i + 1;
    }
    proof {
        lemma_find_account_prefix(cs, who, i as int);
        assert(cs.subrange(0, i as int) =~= cs);
    }
    None
}

/// Whether recording `value` from `who` would overflow `who`'s entry.
pub fn contribution_overflows(contributions: &Vec<Contribution>, who: AccountId, value: Balance) -> (r: bool)
    ensures
        r == merge_overflows(contributions@, who, value as nat),
{
    proof {
        lemma_find_account(contributions@, who);
    }
    match account_position(contributions, who) {
        Some(k) => contributions[k].value.checked_add(value).is_none(),
        None => false,
    }
}

/// Records `value` from `who`: adds it to `who`'s entry, or appends a new entry.
pub fn add_contribution(contributions: &mut Vec<Contribution>, who: AccountId, value: Balance)
    requires
        !merge_overflows(old(contributions)@, who, value as nat),
    ensures
        final(contributions)@ == merged(old(contributions)@, who, value as nat),
{
    proof {
        lemma_find_account(contributions@, who);
    }
    match account_position(contributions, who) {
        Some(k) => {
            let total = contributions[k].value + value;
            contributions.set(k, Contribution { account_id: who, value: total });
        },
        None => {
            contributions.push(Contribution { account_id: who, value });
        },
    }
}

/// The contribution list built by recording each `(account, value)` call in order,
/// starting from an empty list.
pub open spec fn contributions_after(calls: Seq<(AccountId, Balance)>) -> Seq<Contribution>
    decreases calls.len(),
{
    if calls.len() == 0 {
        Seq::empty()
    } else {
        merged(contributions_after(calls.drop_last()), calls.last().0, calls.last().1 as nat)
    }
}

/// The sum of the values that account `a` sent in `calls`.
pub open spec fn called_total(calls: Seq<(AccountId, Balance)>, a: AccountId) -> nat
    decreases calls.len(),
{
    if calls.len() == 0 {
        0
    } else {
        called_total(calls.drop_last(), a) + if calls.last().0 == a {
            calls.last().1 as nat
        } else {
            0nat
        }
    }
}

/// Contribution accounting: however a sequence of contributions with positive
/// values is interleaved across accounts, the list holds at most one entry per
/// account, and each account's entry is the sum of everything it sent.
pub proof fn lemma_contribution_history(calls: Seq<(AccountId, Balance)>)
    requires
        forall|j: int| 0 <= j < calls.len() ==> (#[trigger] calls[j]).1 > 0,
        forall|a: AccountId| #[trigger] called_total(calls, a) <= Balance::MAX,
    ensures
        contributions_wf(contributions_after(calls)),
        forall|a: AccountId| #[trigger] amount_of(contributions_after(calls), a) == called_total(calls, a),
    decreases calls.len(),
{
    if calls.len() > 0 {
        let rest = calls.drop_last();
        let (who, v) = calls.last();
        assert(forall|j: int| 0 <= j < rest.len() ==> rest[j] == calls[j]);
        assert(calls.last() == calls[calls.len() - 1]);
        assert forall|a: AccountId| #[trigger] called_total(rest, a) <= Balance::MAX by {
            assert(called_total(rest, a) <= called_total(calls, a));
        }
        lemma_contribution_history(rest);
        let prior = contributions_after(rest);
        lemma_amount_of_entry(prior, who);
        assert(amount_of(prior, who) + v == called_total(calls, who));
        lemma_merged(prior, who, v as nat);
        assert forall|a: AccountId|
            #[trigger] amount_of(contributions_after(calls), a) == called_total(calls, a) by {
            assert(amount_of(merged(prior, who, v as nat), a) == amount_of(prior, a) + if a == who {
                v as nat
            } else {
                0nat
            });
        }
    } else {
        assert forall|a: AccountId|
            #[trigger] amount_of(contributions_after(calls), a) == called_total(calls, a) by {
            assert(amount_of(Seq::<Contribution>::empty(), a) == 0);
        }
    }
}

/// The sum of the contribution values, or `None` when it does not fit a balance.
pub fn contribution_total(contributions: &Vec<Contribution>) -> (r: Option<Balance>)
    ensures
        match r {
            Some(t) => t == value_total(contributions@),
            None => value_total(contributions@) > Balance::MAX,
        },
{
    let ghost cs = contributions@;
    let mut total: u128 = 0;
    let mut i: usize = 0;
    while i < contributions.len()
        invariant
            i <= cs.len(),
            cs == contributions@,
            total == value_total(cs.subrange(0, i as int)),
        decreases cs.len() - i,
    {
        proof {
            assert(cs.subrange(0, i + 1).drop_last() =~= cs.subrange(0, i as int));
        }
        match total.checked_add(contributions[i].value) {
            Some(next) => {
                total = next;
            },
            None => {
                proof {
                    lemma_value_total_prefix(cs, i + 1);
                }
                return None;
            },
        }
        i = i + 1;
    }
    proof {
        assert(cs.subrange(0, i as int) =~= cs);
    }
    Some(total)
}

proof fn lemma_value_total_prefix(cs: Seq<Contribution>, i: int)
    requires
        0 <= i <= cs.len(),
    ensures
        value_total(cs.subrange(0, i)) <= value_total(cs),
    decreases cs.len(),
{
    if i < cs.len() {
        lemma_value_total_prefix(cs.drop_last(), i);
        assert(cs.drop_last().subrange(0, i) =~= cs.subrange(0, i));
    } else {
        assert(cs.subrange(0, i) =~= cs);
    }
}

} // verus!
