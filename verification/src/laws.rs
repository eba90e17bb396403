//! The library's general laws, stated once and proved for all inputs.
use vstd::prelude::*;

use crate::chain::chain_step_spec;
use crate::model::Dice;
use crate::model::Error;
use crate::model::lemma_sum_lower;
use crate::model::lemma_sum_upper;
use crate::model::sum_spec;
use crate::parse::digits_val;
use crate::parse::parse_simple_spec;
use crate::parse::tokens_of;
use crate::parse::valid_number;

verus! {

/// Splitting never fails: every input, even an empty or separator-free
/// one, yields at least one token.
pub proof fn lemma_tokens_of_nonempty(s: Seq<char>)
    ensures
        tokens_of(s).len() >= 1,
    decreases s.len(),
{
    if s.len() > 0 {
        lemma_tokens_of_nonempty(s.drop_last());
    }
}

/// Rolling zero dice, or dice with zero faces, draws no samples at
/// all, and an empty roll sums to zero.
pub proof fn lemma_always_zero_roll(d: Dice, rolls: Seq<u32>)
    requires
        d.spec_always_zero(),
        rolls.len() == d.spec_roll_len(),
    ensures
        rolls.len() == 0,
        sum_spec(rolls) == 0,
{
}

/// A roll of dice that are not always zero sums to at least `num`
/// (every die shows 1) and at most `num * die` (every die shows its
/// highest face).
pub proof fn lemma_roll_sum_bounds(d: Dice, rolls: Seq<u32>)
    requires
        !d.spec_always_zero(),
        rolls.len() == d.spec_roll_len(),
        forall|k: int| 0 <= k < rolls.len() ==> 1 <= #[trigger] rolls[k] <= d.die,
    ensures
        d.num <= sum_spec(rolls) <= (d.num as nat) * (d.die as nat),
{
    lemma_sum_upper(rolls, d.die);
    lemma_sum_lower(rolls, 1);
}

/// Parsing is deterministic: equal inputs tokenize and parse to equal
/// results, every time; only the roll step is random.
pub proof fn lemma_parse_deterministic(a: Seq<char>, b: Seq<char>)
    requires
        a == b,
    ensures
        tokens_of(a) == tokens_of(b),
        parse_simple_spec(a) == parse_simple_spec(b),
{
}

/// Chain collapse: once a stage rolls zero, the chain resolves to a
/// terminal stage of zero dice whose faces come from the very last
/// token, at whatever position the collapse happened; the tokens in
/// between no longer matter, and the terminal stage is always zero.
pub proof fn lemma_chain_collapse(toks: Seq<Seq<char>>, i: int, j: int)
    requires
        2 <= i < toks.len(),
        2 <= j < toks.len(),
        valid_number(toks.last()),
    ensures
        chain_step_spec(0, toks, i) == Ok::<Dice, Error>(
            (Dice { num: 0, die: digits_val(toks.last()) as u32 }),
        ),
        chain_step_spec(0, toks, i) == chain_step_spec(0, toks, j),
        (chain_step_spec(0, toks, i) matches Ok(d) && d.spec_always_zero()),
{
}

} // verus!
