use vstd::prelude::*;

use integer_sqrt::IntegerSquareRoot;

use crate::quadratic::error::ContractError;

verus! {

/// The funding formulas a round can use.
#[derive(Debug, Clone, PartialEq, Eq)]
pub enum QuadraticFundingAlgorithm {
    CapitalConstrainedLiberalRadicalism { parameter: String },
}

/// A proposal's address and the amounts of the votes it collected.
#[derive(Debug, Clone, PartialEq, Eq)]
pub struct RawGrant {
    pub addr: String,
    pub funds: Vec<u128>,
    pub collected_vote_funds: u128,
}

/// A proposal's address and its share of the matching pool.
#[derive(Debug, Clone, PartialEq, Eq)]
pub struct CalculatedGrant {
    pub addr: String,
    pub grant: u128,
    pub collected_vote_funds: u128,
}

/// The sum of a sequence of integers.
pub open spec fn seq_sum(s: Seq<int>) -> int
    decreases s.len(),
{
    if s.len() == 0 {
        0
    } else {
        seq_sum(s.drop_last()) + s.last()
    }
}

/// All terms are non-negative.
pub open spec fn all_nonneg(s: Seq<int>) -> bool {
    forall|i: int| 0 <= i < s.len() ==> s[i] >= 0
}

pub(crate) proof fn lemma_seq_sum_prefix(s: Seq<int>, i: int)
    requires
        0 <= i <= s.len(),
        all_nonneg(s),
    ensures
        0 <= seq_sum(s.take(i)) <= seq_sum(s),
    decreases s.len(),
{
    if s.len() > 0 {
        let t = s.drop_last();
        if i == s.len() {
            assert(s.take(i) =~= s);
            lemma_seq_sum_prefix(t, i - 1);
            assert(t.take(i - 1) =~= t);
        } else {
            lemma_seq_sum_prefix(t, i);
            assert(t.take(i) =~= s.take(i));
        }
    } else {
        assert(s.take(i) =~= s);
    }
}

pub(crate) proof fn lemma_seq_sum_step(s: Seq<int>, i: int)
    requires
        0 <= i < s.len(),
    ensures
        seq_sum(s.take(i + 1)) == seq_sum(s.take(i)) + s[i],
{
    assert(s.take(i + 1).drop_last() =~= s.take(i));
}

/// `r` is the integer square root of `n`: the greatest natural number whose square is at most `n`.
pub open spec fn is_floor_sqrt(n: int, r: int) -> bool {
    &&& 0 <= r
    &&& r * r <= n
    &&& n < (r + 1) * (r + 1)
}

spec fn sqrt_search(n: int, r: nat) -> nat
    decreases r,
{
    if r == 0 || r * r <= n {
        r
    } else {
        sqrt_search(n, (r - 1) as nat)
    }
}

/// The integer square root of a non-negative integer.
pub closed spec fn floor_sqrt(n: int) -> nat {
    sqrt_search(n, n as nat)
}

proof fn lemma_sqrt_search(n: int, r: nat)
    requires
        0 <= n,
        n < (r + 1) * (r + 1),
    ensures
        is_floor_sqrt(n, sqrt_search(n, r) as int),
    decreases r,
{
    if r == 0 || r * r <= n {
    } else {
        lemma_sqrt_search(n, (r - 1) as nat);
    }
}

proof fn lemma_floor_sqrt_unique(n: int, r: int, s: int)
    requires
        is_floor_sqrt(n, r),
        is_floor_sqrt(n, s),
    ensures
        r == s,
{
    if r < s {
        assert((r + 1) * (r + 1) <= s * s) by (nonlinear_arith)
            requires
                0 <= r + 1 <= s,
        ;
    }
    if s < r {
        assert((s + 1) * (s + 1) <= r * r) by (nonlinear_arith)
            requires
                0 <= s + 1 <= r,
        ;
    }
}

/// `floor_sqrt` is the integer square root, and the only one.
pub proof fn lemma_floor_sqrt(n: int, r: int)
    requires
        0 <= n,
    ensures
        is_floor_sqrt(n, floor_sqrt(n) as int),
        is_floor_sqrt(n, r) ==> r == floor_sqrt(n),
{
    assert(n < (n + 1) * (n + 1)) by (nonlinear_arith)
        requires
            0 <= n,
    ;
    lemma_sqrt_search(n, n as nat);
    if is_floor_sqrt(n, r) {
        lemma_floor_sqrt_unique(n, r, floor_sqrt(n) as int);
    }
}

/// Calls `IntegerSquareRoot::integer_sqrt` of the `integer-sqrt` crate on a `u128`. The crate
/// documents the result as the integer square root of the number; for unsigned types it never
/// panics.
#[verifier::external_body]
fn integer_sqrt_u128(n: u128) -> (r: u128)
    ensures
        is_floor_sqrt(n as int, r as int),
{
    n.integer_sqrt()
}

/// The integer square roots of a proposal's votes.
pub open spec fn sqrt_terms(funds: Seq<u128>) -> Seq<int> {
    funds.map_values(|v: u128| floor_sqrt(v as int) as int)
}

/// The sum of the integer square roots of a proposal's votes.
pub open spec fn sum_of_sqrts(funds: Seq<u128>) -> int {
    seq_sum(sqrt_terms(funds))
}

/// The unconstrained match of a proposal with the given votes: the square of the sum of the
/// square roots of the votes.
pub open spec fn quadratic_match(funds: Seq<u128>) -> int {
    sum_of_sqrts(funds) * sum_of_sqrts(funds)
}

/// The votes of each grant.
pub open spec fn votes_of(gs: Seq<RawGrant>) -> Seq<Seq<u128>> {
    gs.map_values(|g: RawGrant| g.funds@)
}

/// The unconstrained matches of the proposals with the given votes.
pub open spec fn quadratic_matches(fs: Seq<Seq<u128>>) -> Seq<int> {
    fs.map_values(|f: Seq<u128>| quadratic_match(f))
}

/// The sum of the unconstrained matches.
pub open spec fn match_total(fs: Seq<Seq<u128>>) -> int {
    seq_sum(quadratic_matches(fs))
}

/// The grant amounts of calculated grants.
pub open spec fn grant_amounts(gs: Seq<CalculatedGrant>) -> Seq<int> {
    gs.map_values(|g: CalculatedGrant| g.grant as int)
}

/// A grant scaled from the unconstrained total to the budget, rounded down.
pub open spec fn constrained_grant(grant: int, budget: int, total: int) -> int {
    (grant * budget) / total
}

/// The inputs on which the CLR computation stays within `u128` and divides by a non-zero total.
pub open spec fn clr_in_range(fs: Seq<Seq<u128>>, budget: u128) -> bool {
    &&& forall|i: int| 0 <= i < fs.len() ==> #[trigger] quadratic_match(fs[i]) <= u128::MAX
    &&& forall|i: int| 0 <= i < fs.len() ==> #[trigger] quadratic_match(fs[i]) * budget <= u128::MAX
    &&& match_total(fs) <= u128::MAX
    &&& fs.len() > 0 ==> match_total(fs) > 0
}

proof fn lemma_sqrt_terms_nonneg(funds: Seq<u128>)
    ensures
        all_nonneg(sqrt_terms(funds)),
{
}

pub(crate) proof fn lemma_matched_nonneg(fs: Seq<Seq<u128>>)
    ensures
        all_nonneg(quadratic_matches(fs)),
{
    assert forall|i: int| 0 <= i < fs.len() implies #[trigger] quadratic_matches(fs)[i] >= 0 by {
        let x = sum_of_sqrts(fs[i]);
        assert(x * x >= 0) by (nonlinear_arith);
    }
}

fn sum_sqrts_of(funds: &Vec<u128>) -> (sum: u128)
    requires
        sum_of_sqrts(funds@) * sum_of_sqrts(funds@) <= u128::MAX,
    ensures
        sum == sum_of_sqrts(funds@),
{
    let ghost terms = sqrt_terms(funds@);
    proof {
        lemma_sqrt_terms_nonneg(funds@);
        let x = sum_of_sqrts(funds@);
        lemma_seq_sum_prefix(terms, terms.len() as int);
        assert(x <= u128::MAX) by (nonlinear_arith)
            requires
                0 <= x,
                x * x <= u128::MAX,
        ;
    }
    let mut sum: u128 = 0;
    let mut j: usize = 0;
    while j < funds.len()
        invariant
            j <= funds@.len(),
            terms == sqrt_terms(funds@),
            all_nonneg(terms),
            sum_of_sqrts(funds@) <= u128::MAX,
            sum == seq_sum(terms.take(j as int)),
        decreases funds@.len() - j,
    {
        let r = integer_sqrt_u128(funds[j]);
        proof {
            lemma_floor_sqrt(funds@[j as int] as int, r as int);
            lemma_seq_sum_step(terms, j as int);
            lemma_seq_sum_prefix(terms, j + 1);
        }
        sum = sum + r;
        j = j + 1;
    }
    proof {
        assert(terms.take(funds@.len() as int) =~= terms);
    }
    sum
}

/// The unconstrained match of a proposal's votes, if it fits `u128`.
pub fn checked_match(funds: &Vec<u128>) -> (r: Option<u128>)
    ensures
        r is Some <==> quadratic_match(funds@) <= u128::MAX,
        r is Some ==> r->0 == quadratic_match(funds@),
{
    let ghost terms = sqrt_terms(funds@);
    proof {
        lemma_sqrt_terms_nonneg(funds@);
    }
    let mut sum: u128 = 0;
    let mut j: usize = 0;
    while j < funds.len()
        invariant
            j <= funds@.len(),
            terms == sqrt_terms(funds@),
            all_nonneg(terms),
            sum == seq_sum(terms.take(j as int)),
        decreases funds@.len() - j,
    {
        let root = integer_sqrt_u128(funds[j]);
        proof {
            lemma_floor_sqrt(funds@[j as int] as int, root as int);
            lemma_seq_sum_step(terms, j as int);
        }
        if sum > u128::MAX - root {
            proof {
                lemma_seq_sum_prefix(terms, j + 1);
                let x = sum_of_sqrts(funds@);
                assert(x * x > u128::MAX) by (nonlinear_arith)
                    requires
                        x > u128::MAX,
                ;
            }
            return None;
        }
        sum = sum + root;
        j = j + 1;
    }
    proof {
        assert(terms.take(funds@.len() as int) =~= terms);
    }
    sum.checked_mul(sum)
}

/// Takes the square root of each vote, sums them, and squares the sum, for every proposal.
pub fn calculate_matched_sum(grants: Vec<RawGrant>) -> (out: Vec<CalculatedGrant>)
    requires
        forall|i: int| 0 <= i < grants@.len() ==> #[trigger] quadratic_match(grants@[i].funds@) <= u128::MAX,
    ensures
        out@.len() == grants@.len(),
        forall|i: int|
            0 <= i < grants@.len() ==> {
                &&& (#[trigger] out@[i]).addr == grants@[i].addr
                &&& out@[i].grant == quadratic_match(grants@[i].funds@)
                &&& out@[i].collected_vote_funds == grants@[i].collected_vote_funds
            },
{
    let mut out: Vec<CalculatedGrant> = Vec::new();
    let mut i: usize = 0;
    while i < grants.len()
        invariant
            i <= grants@.len(),
            out@.len() == i,
            forall|k: int| 0 <= k < grants@.len() ==> #[trigger] quadratic_match(grants@[k].funds@) <= u128::MAX,
            forall|k: int|
                0 <= k < i ==> {
                    &&& (#[trigger] out@[k]).addr == grants@[k].addr
                    &&& out@[k].grant == quadratic_match(grants@[k].funds@)
                    &&& out@[k].collected_vote_funds == grants@[k].collected_vote_funds
                },
        decreases grants@.len() - i,
    {
        let g = &grants[i];
        assert(quadratic_match(grants@[i as int].funds@) <= u128::MAX);
        let s = sum_sqrts_of(&g.funds);
        let grant: u128 = s * s;
        out.push(
            CalculatedGrant {
                addr: g.addr.clone(),
                grant,
                collected_vote_funds: g.collected_vote_funds,
            },
        );
        i = i + 1;
    }
    out
}

fn total_of_grants(grants: &Vec<CalculatedGrant>) -> (total: u128)
    requires
        all_nonneg(grant_amounts(grants@)),
        seq_sum(grant_amounts(grants@)) <= u128::MAX,
    ensures
        total == seq_sum(grant_amounts(grants@)),
{
    let ghost amounts = grant_amounts(grants@);
    let mut total: u128 = 0;
    let mut i: usize = 0;
    while i < grants.len()
        invariant
            i <= grants@.len(),
            amounts == grant_amounts(grants@),
            all_nonneg(amounts),
            seq_sum(amounts) <= u128::MAX,
            total == seq_sum(amounts.take(i as int)),
        decreases grants@.len() - i,
    {
        proof {
            lemma_seq_sum_step(amounts, i as int);
            lemma_seq_sum_prefix(amounts, i + 1);
        }
        total = total + grants[i].grant;
        i = i + 1;
    }
    proof {
        assert(amounts.take(grants@.len() as int) =~= amounts);
    }
    total
}

/// Scales every grant from the unconstrained total to the budget, rounding down.
pub fn constrain_by_budget(grants: Vec<CalculatedGrant>, budget: u128) -> (out: Vec<CalculatedGrant>)
    requires
        seq_sum(grant_amounts(grants@)) <= u128::MAX,
        forall|i: int| 0 <= i < grants@.len() ==> #[trigger] grants@[i].grant * budget <= u128::MAX,
        grants@.len() > 0 ==> seq_sum(grant_amounts(grants@)) > 0,
    ensures
        out@.len() == grants@.len(),
        forall|i: int|
            0 <= i < grants@.len() ==> {
                &&& (#[trigger] out@[i]).addr == grants@[i].addr
                &&& out@[i].grant == constrained_grant(
                    grants@[i].grant as int,
                    budget as int,
                    seq_sum(grant_amounts(grants@)),
                )
                &&& out@[i].collected_vote_funds == grants@[i].collected_vote_funds
            },
{
    let raw_total = total_of_grants(&grants);
    let mut out: Vec<CalculatedGrant> = Vec::new();
    let mut i: usize = 0;
    while i < grants.len()
        invariant
            i <= grants@.len(),
            out@.len() == i,
            raw_total == seq_sum(grant_amounts(grants@)),
            grants@.len() > 0 ==> raw_total > 0,
            forall|k: int| 0 <= k < grants@.len() ==> #[trigger] grants@[k].grant * budget <= u128::MAX,
            forall|k: int|
                0 <= k < i ==> {
                    &&& (#[trigger] out@[k]).addr == grants@[k].addr
                    &&& out@[k].grant == constrained_grant(
                        grants@[k].grant as int,
                        budget as int,
                        raw_total as int,
                    )
                    &&& out@[k].collected_vote_funds == grants@[k].collected_vote_funds
                },
        decreases grants@.len() - i,
    {
        let g = &grants[i];
        assert(grants@[i as int].grant * budget <= u128::MAX);
        let scaled: u128 = g.grant * budget;
        let grant: u128 = scaled / raw_total;
        out.push(
            CalculatedGrant {
                addr: g.addr.clone(),
                grant,
                collected_vote_funds: g.collected_vote_funds,
            },
        );
        i = i + 1;
    }
    out
}

proof fn lemma_constrained_sum(s: Seq<int>, b: int, t: int)
    requires
        t > 0,
        b >= 0,
        all_nonneg(s),
    ensures
        seq_sum(s.map_values(|x: int| constrained_grant(x, b, t))) * t <= seq_sum(s) * b,
        seq_sum(s.map_values(|x: int| constrained_grant(x, b, t))) >= 0,
    decreases s.len(),
{
    let f = |x: int| constrained_grant(x, b, t);
    if s.len() > 0 {
        let p = s.drop_last();
        lemma_constrained_sum(p, b, t);
        assert(s.map_values(f).drop_last() =~= p.map_values(f));
        let x = s.last();
        let q = (x * b) / t;
        let c = seq_sum(p.map_values(f));
        let sp = seq_sum(p);
        assert(x * b >= 0) by (nonlinear_arith)
            requires
                x >= 0,
                b >= 0,
        ;
        vstd::arithmetic::div_mod::lemma_fundamental_div_mod(x * b, t);
        vstd::arithmetic::div_mod::lemma_div_pos_is_pos(x * b, t);
        assert(q * t <= x * b) by (nonlinear_arith)
            requires
                x * b == t * q + (x * b) % t,
                0 <= (x * b) % t,
        ;
        assert((c + q) * t <= (sp + x) * b) by (nonlinear_arith)
            requires
                c * t <= sp * b,
                q * t <= x * b,
        ;
    }
}

/// The scaled grants never exceed the budget: their sum is at most the budget.
pub proof fn lemma_constrained_total_within_budget(s: Seq<int>, b: int)
    requires
        b >= 0,
        all_nonneg(s),
        seq_sum(s) > 0,
    ensures
        0 <= seq_sum(s.map_values(|x: int| constrained_grant(x, b, seq_sum(s)))) <= b,
{
    let t = seq_sum(s);
    lemma_constrained_sum(s, b, t);
    let c = seq_sum(s.map_values(|x: int| constrained_grant(x, b, t)));
    assert(c <= b) by (nonlinear_arith)
        requires
            c * t <= t * b,
            t > 0,
    ;
}

/// Calculates the capital-constrained liberal radicalism distribution: each proposal's match is
/// the square of the sum of the square roots of its votes, scaled down so that all matches
/// together fit the budget. Returns the grants and what is left of the budget.
pub fn calculate_clr(grants: Vec<RawGrant>, budget: Option<u128>) -> (r: Result<
    (Vec<CalculatedGrant>, u128),
    ContractError,
>)
    requires
        budget is Some ==> clr_in_range(votes_of(grants@), budget->0),
    ensures
        budget is None ==> r == Err::<(Vec<CalculatedGrant>, u128), ContractError>(
            ContractError::CLRConstrainRequired,
        ),
        budget is Some ==> {
            &&& r is Ok
            &&& r->Ok_0.0@.len() == grants@.len()
            &&& forall|i: int|
                0 <= i < grants@.len() ==> {
                    &&& (#[trigger] r->Ok_0.0@[i]).addr == grants@[i].addr
                    &&& r->Ok_0.0@[i].grant == constrained_grant(
                        quadratic_match(grants@[i].funds@),
                        budget->0 as int,
                        match_total(votes_of(grants@)),
                    )
                    &&& r->Ok_0.0@[i].collected_vote_funds == grants@[i].collected_vote_funds
                }
            &&& seq_sum(grant_amounts(r->Ok_0.0@)) + r->Ok_0.1 == budget->0
        },
{
    match budget {
        Some(budget) => {
            let ghost gs = votes_of(grants@);
            assert forall|i: int| 0 <= i < grants@.len() implies #[trigger] quadratic_match(
                grants@[i].funds@,
            ) <= u128::MAX && quadratic_match(grants@[i].funds@) * budget <= u128::MAX by {
                assert(gs[i] == grants@[i].funds@);
            }
            let ghost g0 = grants@;
            let matched = calculate_matched_sum(grants);
            proof {
                assert(grant_amounts(matched@) =~= quadratic_matches(gs));
                lemma_matched_nonneg(gs);
            }
            assert forall|i: int| 0 <= i < matched@.len() implies #[trigger] matched@[i].grant * budget
                <= u128::MAX by {
                assert(quadratic_match(g0[i].funds@) * budget <= u128::MAX);
            }
            let constrained = constrain_by_budget(matched, budget);
            let ghost t = match_total(gs);
            proof {
                let f = |x: int| constrained_grant(x, budget as int, t);
                if gs.len() > 0 {
                    assert(grant_amounts(constrained@) =~= quadratic_matches(gs).map_values(f));
                    lemma_constrained_total_within_budget(quadratic_matches(gs), budget as int);
                } else {
                    assert(grant_amounts(constrained@) =~= Seq::<int>::empty());
                }
                assert forall|i: int| 0 <= i < constrained@.len() implies #[trigger] grant_amounts(
                    constrained@,
                )[i] >= 0 by {
                    let g = quadratic_matches(gs)[i];
                    assert(g >= 0);
                    assert(g * budget >= 0) by (nonlinear_arith)
                        requires
                            g >= 0,
                            budget >= 0,
                    ;
                    vstd::arithmetic::div_mod::lemma_div_pos_is_pos(g * budget, t);
                }
            }
            let constrained_sum = total_of_grants(&constrained);
            let leftover: u128 = budget - constrained_sum;
            Ok((constrained, leftover))
        },
        None => Err(ContractError::CLRConstrainRequired),
    }
}

} // verus!
