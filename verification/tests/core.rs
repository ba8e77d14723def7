use mice::builder::{BuildError, RollBuilder};
use mice::expose::{roll_tuples, tuple_vec};
use mice::parse::{
    integer, is_dec_digit, sign, whitespace, DiceTerm, Expression, IntegerLex, Sign,
};
use mice::rng::{RollSource, SeededSource};
use mice::util::{roll_capped, ExpressionExt, UtilError};
use mice::{roll, Error, ParseError};

#[test]
fn arithmetic() {
    assert_eq!(roll("5 + 3").unwrap().total(), 8);
    assert_eq!(roll("5 - 3").unwrap().total(), 2);
}

#[test]
fn dice() {
    match DiceTerm::new(0, 0) {
        Ok(_) => panic!(),
        Err(_) => (),
    }
}

#[test]
fn invalid_dice_are_rejected() {
    assert!(DiceTerm::new(1, 0).is_err());
    assert!(DiceTerm::new(1, -5).is_err());
    assert!(DiceTerm::new(-1, 6).is_err());
    assert!(DiceTerm::new(0, 1).is_ok());
    // Through the parser a zero-sided die is an invalid expression.
    assert!(matches!(roll("d0"), Err(Error::InvalidExpression(_))));
    assert!(matches!(roll("3d0 + 5"), Err(Error::InvalidExpression(_))));
    // Through the tuple form it is rejected as well, never clamped.
    assert!(RollBuilder::new().with_tuples(&[(1, 0)]).is_err());
    assert!(RollBuilder::new().with_tuples(&[(1, -2)]).is_err());
}

#[test]
fn nonsense_is_rejected() {
    assert!(matches!(
        roll("10dlol"),
        Err(Error::InvalidExpression(ParseError::InvalidExpression))
    ));
    assert!(roll("").is_err());
    assert!(roll("lol").is_err());
    assert!(roll("2 +").is_err());
    // An oversized literal is a parse failure, not a runtime overflow.
    assert!(roll("99999999999999999999999999").is_err());
    assert!(roll("1 + 99999999999999999999999999").is_err());
    assert!(roll("99999999999999999999999999d6").is_err());
}

#[test]
fn whitespace_is_optional_around_signs() {
    assert_eq!(roll("5+3").unwrap().total(), 8);
    assert_eq!(roll("5 \t+ 3").unwrap().total(), 8);
    assert_eq!(roll("  5 + 3  ").unwrap().total(), 8);
    assert_eq!(roll("-5 + 8").unwrap().total(), 3);
    assert_eq!(roll("+5").unwrap().total(), 5);
}

#[test]
fn evaluation_respects_bounds() {
    for _ in 0..50 {
        let t = roll("d20 + 5 - d2").unwrap().total();
        assert!(5 - 2 + 1 <= t && t <= 5 + 1 + 20);
    }
}

#[test]
fn one_sided_dice_are_deterministic() {
    assert_eq!(roll("7d1").unwrap().total(), 7);
    assert_eq!(roll("5 - 3d1").unwrap().total(), 2);
}

#[test]
fn seeded_sources_reproduce_and_stay_in_bounds() {
    let (inner, _) = Expression::parse("3d6 + 2").unwrap();
    let e = inner.unwrap();
    let mut a1 = SeededSource::from_seed(11);
    let mut a2 = SeededSource::from_seed(11);
    let t1 = e.roll_with(&mut a1).unwrap().total();
    let t2 = e.roll_with(&mut a2).unwrap().total();
    assert_eq!(t1, t2);
    let mut b = SeededSource::from_seed(99);
    let t3 = e.roll_with(&mut b).unwrap().total();
    for t in [t1, t3] {
        assert!(3 + 2 <= t && t <= 18 + 2);
    }
}

#[test]
fn sample_stays_in_range() {
    let mut s = SeededSource::from_seed(5);
    for sides in [2u64, 3, 6, 20, u64::MAX] {
        for _ in 0..20 {
            let r = s.sample(sides);
            assert!(1 <= r && r <= sides);
        }
    }
}

#[test]
fn builder_without_expression_fails() {
    assert!(matches!(
        RollBuilder::new().into_roll(),
        Err(BuildError::NoExpression)
    ));
}

#[test]
fn builder_paths_agree() {
    let mut roll1 = RollBuilder::new()
        .parse("2d6 + 3")
        .unwrap()
        .with_rng(SeededSource::from_seed(4))
        .into_roll()
        .unwrap();
    let t1 = roll1.roll().unwrap().total();
    assert!(2 + 3 <= t1 && t1 <= 12 + 3);
    // The same finalized roll can be evaluated again.
    let t2 = roll1.roll().unwrap().total();
    assert!(2 + 3 <= t2 && t2 <= 12 + 3);
    let mut roll2 = RollBuilder::new()
        .with_tuples(&[(2, 6), (3, 1)])
        .unwrap()
        .with_rng(SeededSource::from_seed(4))
        .into_roll()
        .unwrap();
    assert_eq!(roll2.roll().unwrap().total(), t1);
}

#[test]
fn tuple_forms_round_trip() {
    assert_eq!(tuple_vec("2d6 + 3").unwrap(), vec![(2, 6), (3, 1)]);
    assert_eq!(tuple_vec("-4 + d8").unwrap(), vec![(-4, 1), (1, 8)]);
    assert!(tuple_vec("2d6 +").is_err());
    assert_eq!(roll_tuples(&[(5, 1), (3, 1)]).unwrap().total(), 8);
    assert_eq!(roll_tuples(&[(5, 1), (-3, 1)]).unwrap().total(), 2);
    let t = roll_tuples(&[(2, 6)]).unwrap().total();
    assert!(2 <= t && t <= 12);
    assert!(matches!(
        roll_tuples(&[(1, 0)]),
        Err(Error::InvalidExpression(_))
    ));
}

#[test]
fn overflow_is_directional() {
    let max = i64::MAX;
    assert!(matches!(
        roll_tuples(&[(max, 1), (max, 1)]),
        Err(Error::OverflowPositive(_))
    ));
    assert!(matches!(
        roll_tuples(&[(-max, 1), (-max, 1)]),
        Err(Error::OverflowNegative(_))
    ));
}

#[test]
fn cost_cap_checks_before_rolling() {
    let (inner, _) = Expression::parse("100d2").unwrap();
    let e = inner.unwrap();
    assert!(e.exceeds_cap(50));
    assert!(!e.exceeds_cap(100));
    // A one-sided group costs one step in all, matching its
    // randomness-free fast path.
    let (inner, _) = Expression::parse("100d1").unwrap();
    let e = inner.unwrap();
    assert!(!e.exceeds_cap(50));
    assert!(e.exceeds_cap(0));
    assert!(matches!(
        roll_capped("100d2", 50),
        Err(UtilError::ExceededCap)
    ));
    let t = roll_capped("2d6 + 1", 50).unwrap().total();
    assert!(3 <= t && t <= 13);
    assert!(matches!(
        roll_capped("10dlol", 50),
        Err(UtilError::RollError(Error::InvalidExpression(_)))
    ));
}

#[test]
fn prefix_parse_reports_consumption() {
    let (inner, used) = Expression::parse("2d6xyz").unwrap();
    assert!(inner.is_ok());
    assert_eq!(used, 3);
    assert!(Expression::parse("xyz").is_err());
    let (inner, used) = Expression::parse("d0").unwrap();
    assert!(inner.is_err());
    assert_eq!(used, 2);
}

#[test]
fn lexer_pieces_behave() {
    assert_eq!(integer(b"42x", 0), IntegerLex::Value(42, 2));
    assert_eq!(integer(b"x42", 0), IntegerLex::NoDigits);
    assert_eq!(integer(b"99999999999999999999999999", 0), IntegerLex::TooLarge);
    assert_eq!(integer(b"007", 0), IntegerLex::Value(7, 3));
    assert_eq!(sign(b"-3", 0), Some((Sign::Negative, 1)));
    assert_eq!(sign(b"+3", 0), Some((Sign::Positive, 1)));
    assert_eq!(sign(b"3", 0), None);
    assert_eq!(whitespace(b" x", 0), Some(1));
    assert_eq!(whitespace(b"\tx", 0), Some(1));
    assert_eq!(whitespace(b"x", 0), None);
    assert!(is_dec_digit('7'));
    assert!(!is_dec_digit('d'));
}

#[test]
fn terms_lists_the_parsed_terms() {
    let (inner, _) = Expression::parse("2d6 + 3").unwrap();
    let e = inner.unwrap();
    let terms = e.terms();
    assert_eq!(terms.len(), 2);
    match &terms[0] {
        mice::parse::Term::Dice(d) => {
            assert_eq!(d.count(), 2);
            assert_eq!(d.sides(), 6);
        }
        _ => panic!(),
    }
    assert!(matches!(terms[1], mice::parse::Term::Constant(3)));
}

#[test]
fn error_descriptions_are_stable() {
    assert_eq!(Error::InvalidDie.describe(), "invalid die");
    assert_eq!(
        Error::InvalidExpression(ParseError::InvalidExpression).describe(),
        "you've specified an invalid dice expression"
    );
}
