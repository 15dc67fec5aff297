use vstd::prelude::*;
use integer_sqrt::IntegerSquareRoot;
use vstd::arithmetic::div_mod::{lemma_fundamental_div_mod, lemma_mod_pos_bound};
use crate::contribution::value_total;
use crate::types::{Balance, Contribution, Proposal};

verus! {

/// The integer square root of `n`, rounded down.
pub open spec fn isqrt(n: nat) -> nat
    decreases n,
{
    if n == 0 {
        0
    } else {
        let r = isqrt((n - 1) as nat);
        if (r + 1) * (r + 1) <= n {
            r + 1
        } else {
            r
        }
    }
}

/// `isqrt(n)` is the largest number whose square does not exceed `n`.
pub proof fn lemma_isqrt(n: nat)
    ensures
        isqrt(n) * isqrt(n) <= n,
        n < (isqrt(n) + 1) * (isqrt(n) + 1),
    decreases n,
{
    if n > 0 {
        let r = isqrt((n - 1) as nat);
        lemma_isqrt((n - 1) as nat);
        let a = (r + 1) * (r + 1);
        let b = (r + 2) * (r + 2);
        assert(a < b) by (nonlinear_arith)
            requires a == (r + 1) * (r + 1), b == (r + 2) * (r + 2), r >= 0;
        if a <= n {
            assert(isqrt(n) == r + 1);
            assert((isqrt(n) + 1) * (isqrt(n) + 1) == b);
        } else {
            assert(isqrt(n) == r);
            assert((isqrt(n) + 1) * (isqrt(n) + 1) == a);
        }
    } else {
        assert(isqrt(n) == 0);
        let z = isqrt(n);
        assert((z + 1) * (z + 1) == 1) by (nonlinear_arith)
            requires z == 0;
    }
}

/// Any `r` with `r² ≤ n < (r+1)²` is `isqrt(n)`.
pub proof fn lemma_isqrt_unique(n: nat, r: nat)
    requires
        r * r <= n,
        n < (r + 1) * (r + 1),
    ensures
        r == isqrt(n),
{
    let s = isqrt(n);
    lemma_isqrt(n);
    if r < s {
        assert((r + 1) * (r + 1) <= s * s) by (nonlinear_arith)
            requires r + 1 <= s;
    } else if s < r {
        assert((s + 1) * (s + 1) <= r * r) by (nonlinear_arith)
            requires s + 1 <= r;
    }
}

/// Relies on integer_sqrt::IntegerSquareRoot::integer_sqrt: for an unsigned
/// integer it returns the square root rounded down, and never panics.
#[verifier::external_body]
fn floor_sqrt(n: u128) -> (r: u128)
    ensures
        r * r <= n,
        n < (r + 1) * (r + 1),
{
    n.integer_sqrt()
}

/// The sum of the rounded-down square roots of the contribution values.
pub open spec fn sqrt_sum(cs: Seq<Contribution>) -> nat
    decreases cs.len(),
{
    if cs.len() == 0 {
        0
    } else {
        sqrt_sum(cs.drop_last()) + isqrt(cs.last().value as nat)
    }
}

/// The CLR weight of a list of contributions: the square of its `sqrt_sum`.
pub open spec fn contributions_weight(cs: Seq<Contribution>) -> nat {
    sqrt_sum(cs) * sqrt_sum(cs)
}

/// A proposal's CLR weight; a canceled proposal weighs nothing.
pub open spec fn proposal_weight(p: Proposal) -> nat {
    if p.is_canceled {
        0
    } else {
        contributions_weight(p.contributions@)
    }
}

/// The sum of the CLR weights of the proposals.
pub open spec fn total_weight(ps: Seq<Proposal>) -> nat
    decreases ps.len(),
{
    if ps.len() == 0 {
        0
    } else {
        total_weight(ps.drop_last()) + proposal_weight(ps.last())
    }
}

/// The share of pool `m` owed to weight `w` out of total weight `t`, rounded
/// down; nothing when the total weight is zero.
pub open spec fn share(m: nat, w: nat, t: nat) -> nat {
    if t == 0 {
        0
    } else {
        m * w / t
    }
}

/// The matching share of the `j`-th proposal when pool `m` is split over `ps`.
pub open spec fn matching_share(m: nat, ps: Seq<Proposal>, j: int) -> nat {
    share(m, proposal_weight(ps[j]), total_weight(ps))
}

/// Whether the matching computation for pool `m` over `ps` stays within the
/// range of a balance: the total weight, and each product `m * w`, fit.
pub open spec fn matching_fits(m: nat, ps: Seq<Proposal>) -> bool {
    &&& total_weight(ps) <= Balance::MAX
    &&& forall|j: int| 0 <= j < ps.len() ==> m * proposal_weight(#[trigger] ps[j]) <= Balance::MAX
}

proof fn lemma_sqrt_sum_prefix(cs: Seq<Contribution>, i: int)
    requires
        0 <= i <= cs.len(),
    ensures
        sqrt_sum(cs.subrange(0, i)) <= sqrt_sum(cs),
    decreases cs.len(),
{
    if i < cs.len() {
        lemma_sqrt_sum_prefix(cs.drop_last(), i);
        assert(cs.drop_last().subrange(0, i) =~= cs.subrange(0, i));
    } else {
        assert(cs.subrange(0, i) =~= cs);
    }
}

proof fn lemma_total_weight_prefix(ps: Seq<Proposal>, i: int)
    requires
        0 <= i <= ps.len(),
    ensures
        total_weight(ps.subrange(0, i)) <= total_weight(ps),
        i < ps.len() ==> total_weight(ps.subrange(0, i)) + proposal_weight(ps[i]) <= total_weight(ps),
    decreases ps.len(),
{
    if i < ps.len() {
        assert(ps.subrange(0, i + 1).drop_last() =~= ps.subrange(0, i));
        if i + 1 < ps.len() {
            lemma_total_weight_prefix(ps.drop_last(), i);
            lemma_total_weight_prefix(ps.drop_last(), i + 1);
            assert(ps.drop_last().subrange(0, i) =~= ps.subrange(0, i));
            assert(ps.drop_last().subrange(0, i + 1) =~= ps.subrange(0, i + 1));
        } else {
            assert(ps.drop_last() =~= ps.subrange(0, i));
        }
    } else {
        assert(ps.subrange(0, i) =~= ps);
    }
}

/// The CLR weight of a list of contributions, or `None` when it does not fit a balance.
pub fn contribution_weight(contributions: &Vec<Contribution>) -> (r: Option<Balance>)
    ensures
        match r {
            Some(w) => w == contributions_weight(contributions@),
            None => contributions_weight(contributions@) > Balance::MAX,
        },
{
    let ghost cs = contributions@;
    let mut acc: u128 = 0;
    let mut i: usize = 0;
    while i < contributions.len()
        invariant
            i <= cs.len(),
            cs == contributions@,
            acc == sqrt_sum(cs.subrange(0, i as int)),
        decreases cs.len() - i,
    {
        let s = floor_sqrt(contributions[i].value);
        proof {
            lemma_isqrt_unique(contributions[i as int].value as nat, s as nat);
            assert(cs.subrange(0, i + 1).drop_last() =~= cs.subrange(0, i as int));
        }
        match acc.checked_add(s) {
            Some(next) => {
                acc = next;
            },
            None => {
                proof {
                    lemma_sqrt_sum_prefix(cs, i + 1);
                    let t = sqrt_sum(cs);
                    assert(t * t >= t) by (nonlinear_arith)
                        requires t >= 1;
                }
                return None;
            },
        }
        i = i + 1;
    }
    proof {
        assert(cs.subrange(0, i as int) =~= cs);
    }
    match acc.checked_mul(acc) {
        Some(w) => Some(w),
        None => None,
    }
}

/// The matching-fund share of each proposal when pool `matching_fund` is split
/// across `proposals` by CLR weight, in the proposals' order; `None` when the
/// computation does not fit a balance.
pub fn calculate_matching_funds(matching_fund: Balance, proposals: &Vec<Proposal>) -> (r: Option<Vec<Balance>>)
    ensures
        r is Some <==> matching_fits(matching_fund as nat, proposals@),
        r matches Some(v) ==> {
            &&& v@.len() == proposals@.len()
            &&& forall|j: int|
                0 <= j < v@.len() ==> #[trigger] v@[j] == matching_share(matching_fund as nat, proposals@, j)
        },
{
    let ghost ps = proposals@;
    let mut weights: Vec<Balance> = Vec::new();
    let mut total: u128 = 0;
    let mut i: usize = 0;
    while i < proposals.len()
        invariant
            i <= ps.len(),
            ps == proposals@,
            total == total_weight(ps.subrange(0, i as int)),
            weights@.len() == i,
            forall|j: int| 0 <= j < i ==> #[trigger] weights@[j] == proposal_weight(ps[j]),
        decreases ps.len() - i,
    {
        proof {
            assert(ps.subrange(0, i + 1).drop_last() =~= ps.subrange(0, i as int));
            lemma_total_weight_prefix(ps, i as int);
        }
        let w: u128 = if proposals[i].is_canceled {
            0
        } else {
            match contribution_weight(&proposals[i].contributions) {
                Some(w) => w,
                None => {
                    return None;
                },
            }
        };
        match total.checked_add(w) {
            Some(next) => {
                total = next;
            },
            None => {
                return None;
            },
        }
        weights.push(w);
        i = i + 1;
    }
    proof {
        assert(ps.subrange(0, i as int) =~= ps);
    }
    let mut shares: Vec<Balance> = Vec::new();
    let mut k: usize = 0;
    while k < proposals.len()
        invariant
            k <= ps.len(),
            ps == proposals@,
            total == total_weight(ps),
            weights@.len() == ps.len(),
            forall|j: int| 0 <= j < ps.len() ==> #[trigger] weights@[j] == proposal_weight(ps[j]),
            shares@.len() == k,
            forall|j: int| 0 <= j < k ==> #[trigger] shares@[j] == matching_share(matching_fund as nat, ps, j),
            forall|j: int| 0 <= j < k ==> matching_fund as nat * proposal_weight(#[trigger] ps[j]) <= Balance::MAX,
        decreases ps.len() - k,
    {
        if total == 0 {
            proof {
                lemma_total_weight_prefix(ps, k as int);
                assert(proposal_weight(ps[k as int]) == 0);
                assert(matching_fund as nat * 0 == 0);
            }
            shares.push(0);
        } else {
            match matching_fund.checked_mul(weights[k]) {
                Some(product) => {
                    shares.push(product / total);
                },
                None => {
                    return None;
                },
            }
        }
        k = k + 1;
    }
    Some(shares)
}

/// The sum of the matching funds of the proposals that are not canceled.
pub open spec fn funded_total(ps: Seq<Proposal>) -> nat
    decreases ps.len(),
{
    if ps.len() == 0 {
        0
    } else {
        funded_total(ps.drop_last()) + if ps.last().is_canceled {
            0
        } else {
            ps.last().matching_fund as nat
        }
    }
}

/// The number of proposals that are not canceled.
pub open spec fn live_count(ps: Seq<Proposal>) -> nat
    decreases ps.len(),
{
    if ps.len() == 0 {
        0
    } else {
        live_count(ps.drop_last()) + if ps.last().is_canceled {
            0nat
        } else {
            1nat
        }
    }
}

proof fn lemma_funded_total_scaled(m: nat, t: nat, qs: Seq<Proposal>)
    requires
        t > 0,
        forall|j: int| 0 <= j < qs.len() ==> (#[trigger] qs[j]).matching_fund == share(m, proposal_weight(qs[j]), t),
    ensures
        t * funded_total(qs) <= m * total_weight(qs),
        m * total_weight(qs) <= t * (funded_total(qs) + live_count(qs)),
    decreases qs.len(),
{
    if qs.len() == 0 {
        assert(t * 0 <= m * 0) by (nonlinear_arith);
        assert(m * 0 <= t * (0 + 0)) by (nonlinear_arith);
    } else {
        let rest = qs.drop_last();
        let p = qs.last();
        assert(forall|j: int| 0 <= j < rest.len() ==> rest[j] == qs[j]);
        lemma_funded_total_scaled(m, t, rest);
        let f0 = funded_total(rest);
        let w0 = total_weight(rest);
        let c0 = live_count(rest);
        let w = proposal_weight(p);
        assert(total_weight(qs) == w0 + w);
        if p.is_canceled {
            assert(funded_total(qs) == f0);
            assert(live_count(qs) == c0);
            assert(w == 0);
        } else {
            let x = m * w;
            let f = x / t;
            assert(p == qs[qs.len() - 1]);
            assert(p.matching_fund == f);
            assert(funded_total(qs) == f0 + f);
            assert(live_count(qs) == c0 + 1);
            lemma_fundamental_div_mod(x as int, t as int);
            lemma_mod_pos_bound(x as int, t as int);
            assert(t * f <= x && x < t * f + t);
            assert(t * (f0 + f) <= m * (w0 + w)) by (nonlinear_arith)
                requires t * f0 <= m * w0, t * f <= m * w;
            assert(m * (w0 + w) <= t * ((f0 + f) + (c0 + 1))) by (nonlinear_arith)
                requires m * w0 <= t * (f0 + c0), m * w <= t * f + t;
        }
    }
}

proof fn lemma_funded_total_zero(qs: Seq<Proposal>)
    requires
        forall|j: int| 0 <= j < qs.len() ==> (#[trigger] qs[j]).matching_fund == 0,
    ensures
        funded_total(qs) == 0,
    decreases qs.len(),
{
    if qs.len() > 0 {
        let rest = qs.drop_last();
        assert(forall|j: int| 0 <= j < rest.len() ==> rest[j] == qs[j]);
        lemma_funded_total_zero(rest);
        assert(qs.last() == qs[qs.len() - 1]);
    }
}

/// Conservation of the matching pool: when every proposal holds its matching
/// share of pool `m`, the proposals that are not canceled together receive at
/// most `m`; and when some proposal has weight, they fall short of `m` by at
/// most one unit per proposal that is not canceled (rounding down).
pub proof fn lemma_shares_within_pool(m: nat, ps: Seq<Proposal>)
    requires
        forall|j: int| 0 <= j < ps.len() ==> (#[trigger] ps[j]).matching_fund == matching_share(m, ps, j),
    ensures
        funded_total(ps) <= m,
        total_weight(ps) > 0 ==> m <= funded_total(ps) + live_count(ps),
{
    let t = total_weight(ps);
    if t > 0 {
        lemma_funded_total_scaled(m, t, ps);
        let f = funded_total(ps);
        let c = live_count(ps);
        assert(f <= m) by (nonlinear_arith)
            requires t * f <= m * t, t > 0;
        assert(m <= f + c) by (nonlinear_arith)
            requires m * t <= t * (f + c), t > 0;
    } else {
        lemma_funded_total_zero(ps);
    }
}

/// When no proposal has received a contribution, the total weight is zero and
/// every matching share is zero: the pool is not divided.
pub proof fn lemma_no_contributions_no_matching(m: nat, ps: Seq<Proposal>)
    requires
        forall|j: int| 0 <= j < ps.len() ==> (#[trigger] ps[j]).contributions@.len() == 0,
    ensures
        total_weight(ps) == 0,
        forall|j: int| 0 <= j < ps.len() ==> #[trigger] matching_share(m, ps, j) == 0,
    decreases ps.len(),
{
    if ps.len() > 0 {
        let rest = ps.drop_last();
        assert(forall|j: int| 0 <= j < rest.len() ==> rest[j] == ps[j]);
        lemma_no_contributions_no_matching(m, rest);
        assert(ps.last() == ps[ps.len() - 1]);
        assert(sqrt_sum(ps.last().contributions@) == 0);
    }
}

/// Quadratic funding rewards spreading: `k` contributions that are each the
/// square `s²` have weight `k·V`, where `V` is their total, while a single
/// contribution of the same total `V` has weight at most `V`.
pub proof fn lemma_spread_contributions(cs: Seq<Contribution>, s: nat, single: Contribution)
    requires
        forall|j: int| 0 <= j < cs.len() ==> (#[trigger] cs[j]).value == s * s,
        single.value == value_total(cs),
    ensures
        sqrt_sum(cs) == cs.len() * s,
        value_total(cs) == cs.len() * (s * s),
        contributions_weight(cs) == cs.len() * value_total(cs),
        contributions_weight(seq![single]) <= value_total(cs),
        cs.len() > 1 && s > 0 ==> contributions_weight(cs) > contributions_weight(seq![single]),
{
    lemma_spread_sums(cs, s);
    let k = cs.len();
    assert((k * s) * (k * s) == k * (k * (s * s))) by (nonlinear_arith);
    let one = seq![single];
    assert(one.drop_last() =~= Seq::<Contribution>::empty());
    assert(one.last() == single);
    let r = isqrt(single.value as nat);
    assert(sqrt_sum(Seq::<Contribution>::empty()) == 0);
    assert(sqrt_sum(one) == sqrt_sum(one.drop_last()) + r);
    lemma_isqrt(single.value as nat);
    if k > 1 && s > 0 {
        let v = value_total(cs);
        assert(v > 0) by (nonlinear_arith)
            requires v == k * (s * s), k > 1, s > 0;
        assert(k * v > v) by (nonlinear_arith)
            requires k > 1, v > 0;
    }
}

/// Within one split of a pool, a proposal of larger weight never gets a
/// smaller matching share.
pub proof fn lemma_heavier_gets_more(m: nat, ps: Seq<Proposal>, a: int, b: int)
    requires
        0 <= a < ps.len(),
        0 <= b < ps.len(),
        proposal_weight(ps[a]) >= proposal_weight(ps[b]),
    ensures
        matching_share(m, ps, a) >= matching_share(m, ps, b),
{
    let t = total_weight(ps);
    if t > 0 {
        let (wa, wb) = (proposal_weight(ps[a]), proposal_weight(ps[b]));
        assert(m * wa >= m * wb) by (nonlinear_arith)
            requires wa >= wb;
        vstd::arithmetic::div_mod::lemma_div_is_ordered((m * wb) as int, (m * wa) as int, t as int);
    }
}

proof fn lemma_spread_sums(cs: Seq<Contribution>, s: nat)
    requires
        forall|j: int| 0 <= j < cs.len() ==> (#[trigger] cs[j]).value == s * s,
    ensures
        sqrt_sum(cs) == cs.len() * s,
        value_total(cs) == cs.len() * (s * s),
    decreases cs.len(),
{
    if cs.len() > 0 {
        let rest = cs.drop_last();
        assert(forall|j: int| 0 <= j < rest.len() ==> rest[j] == cs[j]);
        lemma_spread_sums(rest, s);
        assert(cs.last() == cs[cs.len() - 1]);
        assert(s * s < (s + 1) * (s + 1)) by (nonlinear_arith);
        lemma_isqrt_unique(s * s, s);
        let k = rest.len();
        assert(k * s + s == (k + 1) * s) by (nonlinear_arith);
        assert(k * (s * s) + s * s == (k + 1) * (s * s)) by (nonlinear_arith);
    }
}

/// Matching shares depend only on which proposals are canceled and on their
/// contributions.
pub proof fn lemma_shares_unchanged(m: nat, ps: Seq<Proposal>, qs: Seq<Proposal>)
    requires
        ps.len() == qs.len(),
        forall|k: int|
            0 <= k < ps.len() ==> (#[trigger] qs[k]).is_canceled == ps[k].is_canceled && qs[k].contributions@
                == ps[k].contributions@,
    ensures
        total_weight(qs) == total_weight(ps),
        forall|k: int| 0 <= k < ps.len() ==> #[trigger] matching_share(m, qs, k) == matching_share(m, ps, k),
    decreases ps.len(),
{
    if ps.len() > 0 {
        let (p0, q0) = (ps.drop_last(), qs.drop_last());
        assert forall|k: int| 0 <= k < p0.len() implies (#[trigger] q0[k]).is_canceled == p0[k].is_canceled
            && q0[k].contributions@ == p0[k].contributions@ by {
            assert(q0[k] == qs[k] && p0[k] == ps[k]);
        }
        lemma_shares_unchanged(m, p0, q0);
        assert(qs.last() == qs[qs.len() - 1] && ps.last() == ps[ps.len() - 1]);
        assert forall|k: int| 0 <= k < ps.len() implies #[trigger] matching_share(m, qs, k) == matching_share(m, ps, k) by {
            assert(proposal_weight(qs[k]) == proposal_weight(ps[k]));
        }
    }
}

} // verus!
