//! The dice specification itself: what a `(count, faces)` pair is and
//! what rolling it yields.
use vstd::prelude::*;

use crate::random::sample_in_range;

verus! {

/// The errors that parsing a dice expression can produce.
#[derive(Debug, PartialEq, Eq, Structural)]
pub enum Error {
    /// A count or faces token was not a valid unsigned number, or a
    /// chained stage's count outgrew the field that holds it.
    Parse,
    /// Simple mode only: more than one die separator was present.
    /// Carries the dice built from the first two tokens, so the caller
    /// may still report or use them.
    MoreThanOneD(Dice),
    /// Too few tokens: no die separator was found at all.
    NoD,
}

/// A dice specification: roll `num` independent dice, each with `die` faces.
#[derive(Clone, Copy, Debug, PartialEq, Eq, Structural)]
pub struct Dice {
    pub num: u32,
    pub die: u32,
}

/// The mathematical sum of a sequence of rolled values.
pub open spec fn sum_spec(s: Seq<u32>) -> nat
    decreases s.len(),
{
    if s.len() == 0 {
        0
    } else {
        sum_spec(s.drop_last()) + s.last() as nat
    }
}

/// A sum of values that all lie below a common bound is at most the
/// bound times the number of values.
pub proof fn lemma_sum_upper(s: Seq<u32>, hi: u32)
    requires
        forall|j: int| 0 <= j < s.len() ==> #[trigger] s[j] <= hi,
    ensures
        sum_spec(s) <= s.len() * hi,
    decreases s.len(),
{
    if s.len() > 0 {
        lemma_sum_upper(s.drop_last(), hi);
        assert((s.len() - 1) * hi + hi == s.len() * hi) by (nonlinear_arith);
    }
}

/// A sum of values that all lie above a common bound is at least the
/// bound times the number of values.
pub proof fn lemma_sum_lower(s: Seq<u32>, lo: u32)
    requires
        forall|j: int| 0 <= j < s.len() ==> lo <= #[trigger] s[j],
    ensures
        s.len() * lo <= sum_spec(s),
    decreases s.len(),
{
    if s.len() > 0 {
        lemma_sum_lower(s.drop_last(), lo);
        assert((s.len() - 1) * lo + lo == s.len() * lo) by (nonlinear_arith);
    }
}

impl Dice {
    /// True when every roll of these dice is empty and sums to zero.
    pub open spec fn spec_always_zero(&self) -> bool {
        self.num == 0 || self.die == 0
    }

    /// How many samples a roll of these dice draws.
    pub open spec fn spec_roll_len(&self) -> nat {
        if self.spec_always_zero() {
            0
        } else {
            self.num as nat
        }
    }

    /// Tests whether the result of rolling these dice is always 0.
    #[verifier::when_used_as_spec(spec_always_zero)]
    pub fn always_zero(&self) -> (b: bool)
        ensures
            b == self.spec_always_zero(),
    {
        self.num == 0 || self.die == 0
    }

    /// Rolls the dice: `num` independent uniform samples from `[1, die]`,
    /// in order, or no samples at all when the roll is always zero.
    pub fn roll(&self, rng: &mut rand::rngs::ThreadRng) -> (r: Vec<u32>)
        ensures
            r@.len() == self.spec_roll_len(),
            forall|k: int| 0 <= k < r@.len() ==> 1 <= #[trigger] r@[k] <= self.die,
            self.spec_always_zero() ==> r@.len() == 0 && sum_spec(r@) == 0,
    {
        let mut out: Vec<u32> = Vec::new();
        if self.always_zero() {
            return out;
        }
        let mut k: u32 = 0;
        while k < self.num
            invariant
                k <= self.num,
                1 <= self.die,
                out@.len() == k as nat,
                forall|j: int| 0 <= j < out@.len() ==> 1 <= #[trigger] out@[j] <= self.die,
            decreases self.num - k,
        {
            let v = sample_in_range(rng, 1, self.die);
            out.push(v);
            k = k + 1;
        }
        out
    }
}

/// Adds up a vector of rolled values. The bound on the length keeps the
/// running total within a `u64` whatever the values are.
pub fn sum_rolls(rolls: &Vec<u32>) -> (s: u64)
    requires
        rolls@.len() <= u32::MAX,
    ensures
        s == sum_spec(rolls@),
{
    let mut acc: u64 = 0;
    let mut i: usize = 0;
    proof {
        assert(rolls@.take(0) =~= Seq::<u32>::empty());
    }
    while i < rolls.len()
        invariant
            i <= rolls@.len() <= u32::MAX,
            acc == sum_spec(rolls@.take(i as int)),
            acc <= (i as nat) * (u32::MAX as nat),
        decreases rolls@.len() - i,
    {
        let v = rolls[i];
        proof {
            assert(rolls@.take(i + 1).drop_last() =~= rolls@.take(i as int));
            assert(rolls@.take(i + 1).last() == rolls@[i as int]);
            assert((i as nat) * (u32::MAX as nat) + (u32::MAX as nat) == ((i + 1) as nat)
                * (u32::MAX as nat)) by (nonlinear_arith);
            assert(((i + 1) as nat) * (u32::MAX as nat) <= (u32::MAX as nat) * (u32::MAX as nat))
                by (nonlinear_arith)
                requires
                    (i + 1) as nat <= u32::MAX as nat,
            ;
        }
        acc = acc + v as u64;
        i = i + 1;
    }
    proof {
        assert(rolls@.take(rolls@.len() as int) =~= rolls@);
    }
    acc
}

} // verus!
