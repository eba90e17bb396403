use dice::Dice;
use dice::Error;
use dice::chain::ChainOutcome;
use dice::chain::chain_step;
use dice::chain::roll_chain;
use dice::model::sum_rolls;
use dice::parse::build_stage;
use dice::parse::parse_dice;
use dice::parse::parse_u32;
use dice::parse::tokenize;

fn chars(s: &str) -> Vec<char> {
    s.chars().collect()
}

#[test]
fn parse_simple_examples() {
    assert_eq!(parse_dice("2d6"), Ok(Dice { num: 2, die: 6 }));
    assert_eq!(parse_dice("d4"), Ok(Dice { num: 1, die: 4 }));
    assert_eq!(parse_dice("0d10"), Ok(Dice { num: 0, die: 10 }));
    assert_eq!(parse_dice("1d8"), Ok(Dice { num: 1, die: 8 }));
    assert_eq!(parse_dice("12d0"), Ok(Dice { num: 12, die: 0 }));
}

#[test]
fn parse_uppercase_separator() {
    assert_eq!(parse_dice("2D6"), Ok(Dice { num: 2, die: 6 }));
    assert_eq!(parse_dice("D8"), Ok(Dice { num: 1, die: 8 }));
}

#[test]
fn parse_extra_separator_carries_first_stage() {
    assert_eq!(
        parse_dice("12d0d5"),
        Err(Error::MoreThanOneD(Dice { num: 12, die: 0 }))
    );
    assert_eq!(
        parse_dice("2d6d4"),
        Err(Error::MoreThanOneD(Dice { num: 2, die: 6 }))
    );
}

#[test]
fn parse_malformed_inputs() {
    assert_eq!(parse_dice("2dX"), Err(Error::Parse));
    // "nodicehere" holds one separator ("no", "icehere"), so the count
    // token is what fails.
    assert_eq!(parse_dice("nodicehere"), Err(Error::Parse));
    assert_eq!(parse_dice("noseparator"), Err(Error::NoD));
    assert_eq!(parse_dice("777"), Err(Error::NoD));
    assert_eq!(parse_dice(""), Err(Error::NoD));
    assert_eq!(parse_dice("d"), Err(Error::Parse));
    assert_eq!(parse_dice("2d"), Err(Error::Parse));
    assert_eq!(parse_dice("dd"), Err(Error::Parse));
    assert_eq!(parse_dice("-1d6"), Err(Error::Parse));
    assert_eq!(parse_dice("1.5d6"), Err(Error::Parse));
}

#[test]
fn parse_overflow_is_malformed() {
    assert_eq!(parse_dice("4294967296d2"), Err(Error::Parse));
    assert_eq!(parse_dice("2d4294967296"), Err(Error::Parse));
    assert_eq!(
        parse_dice("4294967295d2"),
        Ok(Dice { num: 4294967295, die: 2 })
    );
}

#[test]
fn parse_leading_zeros() {
    assert_eq!(parse_dice("007d011"), Ok(Dice { num: 7, die: 11 }));
}

#[test]
fn parse_is_deterministic() {
    let first = parse_dice("3d7");
    let second = parse_dice("3d7");
    assert_eq!(first, second);
    assert_eq!(tokenize("1d6d4"), tokenize("1d6d4"));
}

#[test]
fn parse_via_from_str() {
    assert_eq!("2d6".parse::<Dice>(), Ok(Dice { num: 2, die: 6 }));
    assert!("oops".parse::<Dice>().is_err());
}

#[test]
fn tokenize_examples() {
    assert_eq!(tokenize("2d6"), vec![chars("2"), chars("6")]);
    assert_eq!(tokenize(""), vec![chars("")]);
    assert_eq!(tokenize("dd"), vec![chars(""), chars(""), chars("")]);
    assert_eq!(tokenize("2D6d"), vec![chars("2"), chars("6"), chars("")]);
    assert_eq!(tokenize("12d0d5"), vec![chars("12"), chars("0"), chars("5")]);
}

#[test]
fn parse_u32_examples() {
    assert_eq!(parse_u32(&chars("007")), Ok(7));
    assert_eq!(parse_u32(&chars("4294967295")), Ok(u32::MAX));
    assert_eq!(parse_u32(&chars("4294967296")), Err(Error::Parse));
    assert_eq!(parse_u32(&chars("")), Err(Error::Parse));
    assert_eq!(parse_u32(&chars("1x")), Err(Error::Parse));
}

#[test]
fn build_stage_empty_count_defaults_to_one() {
    assert_eq!(
        build_stage(&chars(""), &chars("4")),
        Ok(Dice { num: 1, die: 4 })
    );
    assert_eq!(
        build_stage(&chars("3"), &chars("6")),
        Ok(Dice { num: 3, die: 6 })
    );
    assert_eq!(build_stage(&chars("x"), &chars("6")), Err(Error::Parse));
    assert_eq!(build_stage(&chars("3"), &chars("")), Err(Error::Parse));
}

#[test]
fn roll_always_zero_is_empty() {
    let mut rng = rand::rng();
    let d = Dice { num: 0, die: 10 };
    assert!(d.always_zero());
    let rolls = d.roll(&mut rng);
    assert!(rolls.is_empty());
    assert_eq!(sum_rolls(&rolls), 0);

    let d = Dice { num: 7, die: 0 };
    assert!(d.always_zero());
    let rolls = d.roll(&mut rng);
    assert!(rolls.is_empty());
    assert_eq!(sum_rolls(&rolls), 0);
}

#[test]
fn roll_draws_count_samples_in_range() {
    let mut rng = rand::rng();
    let d = Dice { num: 40, die: 6 };
    assert!(!d.always_zero());
    let rolls = d.roll(&mut rng);
    assert_eq!(rolls.len(), 40);
    for &v in &rolls {
        assert!((1..=6).contains(&v));
    }
    let sum = sum_rolls(&rolls);
    assert!(40 <= sum && sum <= 240);
}

#[test]
fn roll_one_faced_dice_are_all_ones() {
    let mut rng = rand::rng();
    let d = Dice { num: 5, die: 1 };
    let rolls = d.roll(&mut rng);
    assert_eq!(rolls, vec![1, 1, 1, 1, 1]);
    assert_eq!(sum_rolls(&rolls), 5);
}

#[test]
fn sum_rolls_examples() {
    assert_eq!(sum_rolls(&vec![]), 0);
    assert_eq!(sum_rolls(&vec![1, 2, 3]), 6);
    assert_eq!(sum_rolls(&vec![u32::MAX, u32::MAX]), 2 * (u32::MAX as u64));
}

#[test]
fn chain_step_feeds_sum_forward() {
    let toks = tokenize("1d6d4d8d10");
    assert_eq!(chain_step(3, &toks, 2), Ok(Dice { num: 3, die: 4 }));
    assert_eq!(chain_step(1, &toks, 3), Ok(Dice { num: 1, die: 8 }));
}

#[test]
fn chain_step_zero_collapses_to_last_token() {
    let toks = tokenize("1d6d4d8d10");
    assert_eq!(chain_step(0, &toks, 2), Ok(Dice { num: 0, die: 10 }));
    assert_eq!(chain_step(0, &toks, 3), Ok(Dice { num: 0, die: 10 }));
    let bad = tokenize("1d6dX");
    assert_eq!(chain_step(0, &bad, 2), Err(Error::Parse));
}

#[test]
fn chain_step_oversized_sum_is_malformed() {
    let toks = tokenize("1d6d4");
    assert_eq!(
        chain_step(u32::MAX as u64 + 1, &toks, 2),
        Err(Error::Parse)
    );
    assert_eq!(
        chain_step(u32::MAX as u64, &toks, 2),
        Ok(Dice { num: u32::MAX, die: 4 })
    );
}

#[test]
fn chain_reduction_example() {
    let mut rng = rand::rng();
    let out = roll_chain("1d6d4", &mut rng).unwrap();
    assert_eq!(out.last.die, 4);
    assert!((1..=6).contains(&out.last.num));
    assert!(out.sum as u32 >= out.last.num);
    assert!(out.sum <= out.last.num as u64 * 4);
}

#[test]
fn chain_stays_within_worst_case() {
    let mut rng = rand::rng();
    // Success is owed: every token is a number and no running sum can
    // outgrow a count (worst cases 12, 72, 432).
    let out = roll_chain("2d6d6d6", &mut rng).unwrap();
    assert_eq!(out.last.die, 6);
    assert!(out.last.num <= 72);
    assert!(out.sum <= 432);
}

#[test]
fn chain_collapse_skips_to_last_token() {
    let mut rng = rand::rng();
    let out = roll_chain("1d0d4d8d10", &mut rng).unwrap();
    assert_eq!(
        out,
        ChainOutcome {
            last: Dice { num: 0, die: 10 },
            sum: 0
        }
    );
}

#[test]
fn chain_collapse_still_needs_a_trailing_number() {
    let mut rng = rand::rng();
    assert_eq!(roll_chain("1d0dX", &mut rng), Err(Error::Parse));
    let out = roll_chain("1d0dXd7", &mut rng).unwrap();
    assert_eq!(
        out,
        ChainOutcome {
            last: Dice { num: 0, die: 7 },
            sum: 0
        }
    );
}

#[test]
fn chain_without_further_stages_matches_simple_parse() {
    let mut rng = rand::rng();
    let out = roll_chain("2d6", &mut rng).unwrap();
    assert_eq!(out.last, Dice { num: 2, die: 6 });
    assert!(2 <= out.sum && out.sum <= 12);
}

#[test]
fn chain_errors() {
    let mut rng = rand::rng();
    assert_eq!(roll_chain("nodicehere", &mut rng), Err(Error::Parse));
    assert_eq!(roll_chain("noseparator", &mut rng), Err(Error::NoD));
    assert_eq!(roll_chain("", &mut rng), Err(Error::NoD));
    assert_eq!(roll_chain("Xd4d5", &mut rng), Err(Error::Parse));
    assert_eq!(roll_chain("1d6dX", &mut rng), Err(Error::Parse));
}
