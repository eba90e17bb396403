//! Chained mode: a left-to-right reduction where each stage's rolled
//! total becomes the next stage's die count, collapsing to a terminal
//! zero-count stage as soon as any stage rolls zero.
use vstd::prelude::*;

use crate::model::Dice;
use crate::model::Error;
use crate::model::lemma_sum_lower;
use crate::model::lemma_sum_upper;
use crate::model::sum_rolls;
use crate::parse::build_stage;
use crate::parse::count_val;
use crate::parse::count_valid;
use crate::parse::digits_val;
use crate::parse::parse_u32;
use crate::parse::tokenize;
use crate::parse::tokens_of;
use crate::parse::valid_number;

verus! {

/// The resolved end of a chain: the final stage and its rolled sum.
#[derive(Clone, Copy, Debug, PartialEq, Eq, Structural)]
pub struct ChainOutcome {
    pub last: Dice,
    pub sum: u64,
}

/// What one chain transition yields, given the prior stage's rolled
/// sum and the position of the next faces token. A zero sum collapses
/// the chain onto the very last token; a sum too large for a count
/// field, or a malformed faces token, is a malformed number.
pub open spec fn chain_step_spec(sum: u64, toks: Seq<Seq<char>>, i: int) -> Result<Dice, Error>
    recommends
        2 <= i < toks.len(),
{
    if sum == 0 {
        if valid_number(toks.last()) {
            Ok((Dice { num: 0, die: digits_val(toks.last()) as u32 }))
        } else {
            Err(Error::Parse)
        }
    } else if sum > u32::MAX {
        Err(Error::Parse)
    } else {
        if valid_number(toks[i]) {
            Ok((Dice { num: sum as u32, die: digits_val(toks[i]) as u32 }))
        } else {
            Err(Error::Parse)
        }
    }
}

/// One chain transition. The rolled sum is taken as an argument, so
/// this step is deterministic and verified for every value the random
/// source may have produced.
pub fn chain_step(sum: u64, tokens: &Vec<Vec<char>>, i: usize) -> (r: Result<Dice, Error>)
    requires
        2 <= i < tokens@.len(),
    ensures
        r == chain_step_spec(sum, tokens.deep_view(), i as int),
{
    if sum == 0 {
        let last = tokens.len() - 1;
        proof {
            assert(tokens@[last as int].deep_view() =~= tokens@[last as int]@);
            assert(tokens.deep_view().last() == tokens@[last as int].deep_view());
        }
        match parse_u32(&tokens[last]) {
            Ok(f) => Ok(Dice { num: 0, die: f }),
            Err(e) => Err(e),
        }
    } else if sum > u32::MAX as u64 {
        Err(Error::Parse)
    } else {
        proof {
            assert(tokens@[i as int].deep_view() =~= tokens@[i as int]@);
        }
        match parse_u32(&tokens[i]) {
            Ok(f) => Ok(Dice { num: sum as u32, die: f }),
            Err(e) => Err(e),
        }
    }
}

/// Whether the first two tokens build a stage.
pub open spec fn first_stage_valid(toks: Seq<Seq<char>>) -> bool
    recommends
        toks.len() >= 2,
{
    count_valid(toks[0]) && valid_number(toks[1])
}

/// The stage the first two tokens build.
pub open spec fn first_stage(toks: Seq<Seq<char>>) -> Dice
    recommends
        toks.len() >= 2,
        first_stage_valid(toks),
{
    Dice { num: count_val(toks[0]) as u32, die: digits_val(toks[1]) as u32 }
}

/// The largest sum the stage current at token position `i` can roll:
/// the first stage rolls at most `count * faces`, and every later
/// stage multiplies by its own faces value, since its count is the
/// prior stage's rolled sum.
pub open spec fn worst_case_sum(toks: Seq<Seq<char>>, i: int) -> nat
    recommends
        2 <= i <= toks.len(),
    decreases i,
{
    if i <= 2 {
        count_val(toks[0]) * digits_val(toks[1])
    } else {
        worst_case_sum(toks, i - 1) * digits_val(toks[i - 1])
    }
}

/// A chained expression that is certain to resolve: every stage token
/// is a number, and no sum any sequence of rolls could produce
/// outgrows a count field, so no roll can make the chain fail.
pub open spec fn chain_infallible(toks: Seq<Seq<char>>) -> bool
    recommends
        toks.len() >= 2,
{
    &&& first_stage_valid(toks)
    &&& forall|j: int| 2 <= j < toks.len() ==> valid_number(#[trigger] toks[j])
    &&& forall|i: int| 2 <= i < toks.len() ==> #[trigger] worst_case_sum(toks, i) <= u32::MAX
}

/// A resolved outcome is consistent with its final stage: the sum lies
/// between `num` and `num * die`, and an always-zero final stage sums
/// to zero.
pub open spec fn outcome_wf(o: ChainOutcome) -> bool {
    &&& o.sum <= (o.last.num as nat) * (o.last.die as nat)
    &&& (o.last.spec_always_zero() ==> o.sum == 0)
    &&& (!o.last.spec_always_zero() ==> o.last.num <= o.sum)
}

/// Resolves a whole chained expression: builds the first stage, then
/// repeatedly rolls and feeds the sum forward, and finally rolls the
/// resolved stage. The parse of the first two tokens is deterministic
/// and pinned down exactly, and success is owed whenever every stage
/// token is a number and no possible running sum outgrows a count
/// field; what follows the first stage depends on the rolls, but
/// whatever they were, the outcome is consistent with the final stage,
/// bounded by the worst case, and the final faces value is read from
/// the very last token.
pub fn roll_chain(s: &str, rng: &mut rand::rngs::ThreadRng) -> (r: Result<ChainOutcome, Error>)
    ensures
        (r == Err::<ChainOutcome, Error>(Error::NoD)) <==> tokens_of(s@).len() < 2,
        tokens_of(s@).len() >= 2 && !first_stage_valid(tokens_of(s@)) ==> r == Err::<
            ChainOutcome,
            Error,
        >(Error::Parse),
        r is Ok ==> first_stage_valid(tokens_of(s@)),
        r == Err::<ChainOutcome, Error>(Error::Parse) ==> tokens_of(s@).len() > 2
            || !first_stage_valid(tokens_of(s@)),
        tokens_of(s@).len() >= 2 && chain_infallible(tokens_of(s@)) ==> r is Ok,
        tokens_of(s@).len() == 2 && first_stage_valid(tokens_of(s@)) ==> (r matches Ok(o)
            && o.last == first_stage(tokens_of(s@))),
        r matches Ok(o) ==> outcome_wf(o),
        r matches Ok(o) ==> valid_number(tokens_of(s@).last()) && o.last.die == digits_val(
            tokens_of(s@).last(),
        ) as u32,
        r matches Ok(o) ==> o.sum <= worst_case_sum(tokens_of(s@), tokens_of(s@).len() as int),
        r matches Ok(o) ==> (tokens_of(s@).len() > 2 ==> o.last.num as nat <= worst_case_sum(
            tokens_of(s@),
            tokens_of(s@).len() - 1,
        )),
        r matches Err(e) ==> e == Error::Parse || e == Error::NoD,
{
    let tokens = tokenize(s);
    if tokens.len() < 2 {
        return Err(Error::NoD);
    }
    proof {
        assert(tokens@[0].deep_view() =~= tokens@[0]@);
        assert(tokens@[1].deep_view() =~= tokens@[1]@);
    }
    let mut cur = match build_stage(&tokens[0], &tokens[1]) {
        Ok(d) => d,
        Err(e) => {
            return Err(e);
        },
    };
    let ghost toks = tokens_of(s@);
    proof {
        assert(worst_case_sum(toks, 2) == count_val(toks[0]) * digits_val(toks[1]));
    }
    let mut i: usize = 2;
    while i < tokens.len()
        invariant
            2 <= i <= tokens@.len(),
            tokens.deep_view() == toks,
            toks == tokens_of(s@),
            tokens@.len() == toks.len(),
            tokens@.len() >= 2,
            first_stage_valid(toks),
            tokens@.len() == 2 ==> cur == first_stage(toks),
            i >= tokens@.len() ==> valid_number(toks.last()) && cur.die == digits_val(
                toks.last(),
            ) as u32,
            (cur.num as nat) * (cur.die as nat) <= worst_case_sum(toks, i as int),
            i > 2 ==> cur.num as nat <= worst_case_sum(toks, i - 1),
        decreases tokens@.len() - i,
    {
        let rolls = cur.roll(rng);
        let sum = sum_rolls(&rolls);
        proof {
            lemma_sum_upper(rolls@, cur.die);
            assert(sum as nat <= (cur.num as nat) * (cur.die as nat));
            assert(sum as nat <= worst_case_sum(toks, i as int));
        }
        let collapsed = sum == 0;
        cur = match chain_step(sum, &tokens, i) {
            Ok(d) => d,
            Err(e) => {
                proof {
                    if sum == 0 {
                        assert(!valid_number(toks.last()));
                    }
                    if sum != 0 && sum <= u32::MAX as u64 {
                        assert(!valid_number(toks[i as int]));
                    }
                }
                return Err(e);
            },
        };
        if collapsed {
            i = tokens.len();
        } else {
            proof {
                assert(worst_case_sum(toks, i + 1) == worst_case_sum(toks, i as int)
                    * digits_val(toks[i as int]));
                assert((sum as nat) * digits_val(toks[i as int]) <= worst_case_sum(toks, i as int)
                    * digits_val(toks[i as int])) by (nonlinear_arith)
                    requires
                        sum as nat <= worst_case_sum(toks, i as int),
                ;
            }
            i = i + 1;
        }
    }
    let rolls = cur.roll(rng);
    let sum = sum_rolls(&rolls);
    proof {
        lemma_sum_upper(rolls@, cur.die);
        lemma_sum_lower(rolls@, 1);
        assert(sum as nat <= (cur.num as nat) * (cur.die as nat));
    }
    Ok(ChainOutcome { last: cur, sum })
}

} // verus!
