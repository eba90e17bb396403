//! Parsing dice notation: splitting on the die separator and reading
//! unsigned decimal numbers, each against a mathematical model.
use vstd::prelude::*;
use vstd::string::StrSliceExecFns;

use crate::model::Dice;
use crate::model::Error;

verus! {

/// The die separator: a case-insensitive `d`.
pub open spec fn is_separator(c: char) -> bool {
    c == 'd' || c == 'D'
}

/// A decimal digit, `'0'` through `'9'`.
pub open spec fn is_digit(c: char) -> bool {
    48 <= (c as u32) && (c as u32) <= 57
}

/// The numeric value of one decimal digit.
pub open spec fn digit_val(c: char) -> nat
    recommends
        is_digit(c),
{
    ((c as u32) - 48) as nat
}

/// The value of a digit string read in base ten.
pub open spec fn digits_val(s: Seq<char>) -> nat
    decreases s.len(),
{
    if s.len() == 0 {
        0
    } else {
        digits_val(s.drop_last()) * 10 + digit_val(s.last())
    }
}

pub open spec fn all_digits(s: Seq<char>) -> bool {
    forall|j: int| 0 <= j < s.len() ==> is_digit(#[trigger] s[j])
}

/// A token that parses as a number: non-empty, all digits, and small
/// enough for the field that holds it.
pub open spec fn valid_number(s: Seq<char>) -> bool {
    s.len() > 0 && all_digits(s) && digits_val(s) <= u32::MAX
}

/// A count token may also be empty, which stands for a single die.
pub open spec fn count_valid(s: Seq<char>) -> bool {
    s.len() == 0 || valid_number(s)
}

pub open spec fn count_val(s: Seq<char>) -> nat
    recommends
        count_valid(s),
{
    if s.len() == 0 {
        1
    } else {
        digits_val(s)
    }
}

/// The tokens of an expression: the substrings between die separators,
/// empty substrings kept. An expression always has at least one token.
pub open spec fn tokens_of(s: Seq<char>) -> Seq<Seq<char>>
    decreases s.len(),
{
    if s.len() == 0 {
        seq![Seq::<char>::empty()]
    } else {
        let rest = tokens_of(s.drop_last());
        if is_separator(s.last()) {
            rest.push(Seq::<char>::empty())
        } else {
            rest.update(rest.len() - 1, rest.last().push(s.last()))
        }
    }
}

/// The value of a digit string is at least the value of any of its
/// prefixes: appending digits never shrinks a number.
pub proof fn lemma_digits_val_prefix(s: Seq<char>, i: int)
    requires
        0 <= i <= s.len(),
    ensures
        digits_val(s.take(i)) <= digits_val(s),
    decreases s.len(),
{
    if i < s.len() {
        lemma_digits_val_prefix(s.drop_last(), i);
        assert(s.drop_last().take(i) =~= s.take(i));
    } else {
        assert(s.take(i) =~= s);
    }
}

/// Splits the input at every die separator, keeping empty substrings.
/// Splitting never fails, whatever the input.
pub fn tokenize(s: &str) -> (tokens: Vec<Vec<char>>)
    ensures
        tokens.deep_view() == tokens_of(s@),
        tokens@.len() >= 1,
{
    let n = s.unicode_len();
    let mut done: Vec<Vec<char>> = Vec::new();
    let mut cur: Vec<char> = Vec::new();
    let mut i: usize = 0;
    proof {
        assert(s@.take(0) =~= Seq::<char>::empty());
        assert(done.deep_view().push(cur.deep_view()) =~~= tokens_of(s@.take(0)));
    }
    while i < n
        invariant
            i <= n,
            n == s@.len(),
            done.deep_view().push(cur.deep_view()) == tokens_of(s@.take(i as int)),
        decreases n - i,
    {
        let ghost prev = tokens_of(s@.take(i as int));
        let c = s.get_char(i);
        proof {
            assert(s@.take(i + 1).drop_last() =~= s@.take(i as int));
            assert(s@.take(i + 1).last() == s@[i as int]);
        }
        if c == 'd' || c == 'D' {
            done.push(cur);
            cur = Vec::new();
            proof {
                assert(done.deep_view().push(cur.deep_view()) =~~= (prev.push(
                    Seq::<char>::empty(),
                )));
            }
        } else {
            cur.push(c);
            proof {
                assert(done.deep_view().push(cur.deep_view()) =~~= (prev.update(
                    prev.len() - 1,
                    prev.last().push(s@[i as int]),
                )));
            }
        }
        i = i + 1;
    }
    proof {
        assert(s@.take(n as int) =~= s@);
    }
    done.push(cur);
    proof {
        assert(done.deep_view() =~~= tokens_of(s@));
    }
    done
}

/// Reads a token as an unsigned number: succeeds exactly on non-empty
/// all-digit tokens whose value fits, and otherwise reports the token
/// as malformed.
pub fn parse_u32(t: &Vec<char>) -> (r: Result<u32, Error>)
    ensures
        valid_number(t@) ==> r == Ok::<u32, Error>(digits_val(t@) as u32),
        !valid_number(t@) ==> r == Err::<u32, Error>(Error::Parse),
{
    if t.len() == 0 {
        return Err(Error::Parse);
    }
    let mut acc: u64 = 0;
    let mut i: usize = 0;
    proof {
        assert(t@.take(0) =~= Seq::<char>::empty());
    }
    while i < t.len()
        invariant
            i <= t@.len(),
            all_digits(t@.take(i as int)),
            acc == digits_val(t@.take(i as int)),
            acc <= u32::MAX,
        decreases t@.len() - i,
    {
        let c = t[i];
        let cv = c as u32;
        proof {
            assert(t@.take(i + 1).drop_last() =~= t@.take(i as int));
            assert(t@.take(i + 1).last() == t@[i as int]);
        }
        if cv < 48 || cv > 57 {
            proof {
                assert(!is_digit(t@[i as int]));
                assert(!all_digits(t@));
            }
            return Err(Error::Parse);
        }
        let next = acc * 10 + (cv - 48) as u64;
        if next > u32::MAX as u64 {
            proof {
                lemma_digits_val_prefix(t@, i + 1);
            }
            return Err(Error::Parse);
        }
        acc = next;
        i = i + 1;
    }
    proof {
        assert(t@.take(t@.len() as int) =~= t@);
    }
    Ok(acc as u32)
}

/// What building one stage from a count token and a faces token yields.
pub open spec fn stage_spec(cnt: Seq<char>, fac: Seq<char>) -> Result<Dice, Error> {
    if count_valid(cnt) && valid_number(fac) {
        Ok((Dice { num: count_val(cnt) as u32, die: digits_val(fac) as u32 }))
    } else {
        Err(Error::Parse)
    }
}

/// Builds one stage: an empty count token stands for one die; both
/// tokens must otherwise be numbers.
pub fn build_stage(cnt: &Vec<char>, fac: &Vec<char>) -> (r: Result<Dice, Error>)
    ensures
        r == stage_spec(cnt@, fac@),
{
    let num: u32 = if cnt.len() == 0 {
        1
    } else {
        match parse_u32(cnt) {
            Ok(v) => v,
            Err(e) => {
                return Err(e);
            },
        }
    };
    let die: u32 = match parse_u32(fac) {
        Ok(v) => v,
        Err(e) => {
            return Err(e);
        },
    };
    Ok(Dice { num, die })
}

/// What parsing a whole expression in simple mode yields: too few
/// tokens is a missing separator, more than two is an extra separator
/// that still carries the stage built from the first two.
pub open spec fn parse_simple_spec(s: Seq<char>) -> Result<Dice, Error> {
    let toks = tokens_of(s);
    if toks.len() < 2 {
        Err(Error::NoD)
    } else {
        match stage_spec(toks[0], toks[1]) {
            Ok(d) => if toks.len() == 2 {
                Ok(d)
            } else {
                Err(Error::MoreThanOneD(d))
            },
            Err(e) => Err(e),
        }
    }
}

/// Parses an expression of the form `[count] d faces` (simple mode).
pub fn parse_dice(s: &str) -> (r: Result<Dice, Error>)
    ensures
        r == parse_simple_spec(s@),
{
    let tokens = tokenize(s);
    if tokens.len() < 2 {
        return Err(Error::NoD);
    }
    proof {
        assert(tokens@[0].deep_view() =~= tokens@[0]@);
        assert(tokens@[1].deep_view() =~= tokens@[1]@);
    }
    let d = match build_stage(&tokens[0], &tokens[1]) {
        Ok(d) => d,
        Err(e) => {
            return Err(e);
        },
    };
    if tokens.len() == 2 {
        Ok(d)
    } else {
        Err(Error::MoreThanOneD(d))
    }
}

impl core::str::FromStr for Dice {
    type Err = Error;

    fn from_str(s: &str) -> Result<Dice, Error> {
        parse_dice(s)
    }
}

} // verus!
