//! Dice-expression library: parsing, evaluation and formatting of
//! tabletop-style dice expressions such as `2d6 + 3 - d20`.
//!
//! A source string is parsed into an [`parse::Expression`], evaluated
//! against a pluggable source of uniform random integers, and the outcome
//! rendered under configurable formatting rules. Evaluation is strictly
//! sequential: the n-th random draw always belongs to the n-th die in
//! source order, so results are reproducible from a deterministic seed.
use vstd::prelude::*;
use vstd::arithmetic::mul::lemma_mul_inequality;
use vstd::string::StringSliceAdditionalSpecFns;

pub mod builder;
pub mod display;
pub mod error;
pub mod expose;
pub mod laws;
pub mod parse;
pub mod post;
pub mod rng;
pub mod util;

pub use error::Error;
pub use parse::ParseError;
pub use post::{ExpressionResult, FormatOptions};

use parse::{exprs_wf, sum_max, sum_min, within_bounds, DiceTerm, Expr, Sign, Term};
use post::{pairs_wf, seq_sum, valid_eval, values_sum, EvaluatedTerm, RolledDie};
use rng::RollSource;

verus! {

/// The sum of terms is greater than what an `i64` can hold.
#[derive(Debug, Clone, Copy, PartialEq, Eq, Structural)]
pub struct OverflowPositive;

/// The sum of terms is lower than what an `i64` can hold.
#[derive(Debug, Clone, Copy, PartialEq, Eq, Structural)]
pub struct OverflowNegative;

/// A checked sum left the range of `i64`, in the given direction.
#[derive(Debug)]
enum Overflow {
    Positive(OverflowPositive),
    Negative(OverflowNegative),
}

impl Overflow {
    /// The overflow of the negated sum: the opposite direction.
    pub(crate) fn flip(self) -> (r: Overflow)
        ensures
            (self matches Overflow::Positive(_)) <==> (r matches Overflow::Negative(_)),
    {
        match self {
            Overflow::Positive(_) => Overflow::Negative(OverflowNegative),
            Overflow::Negative(_) => Overflow::Positive(OverflowPositive),
        }
    }

    /// The corresponding library error.
    pub(crate) fn into_error(self) -> (r: Error)
        ensures
            r.is_overflow(),
            (self matches Overflow::Positive(_)) <==> (r matches Error::OverflowPositive(_)),
    {
        match self {
            Overflow::Positive(x) => Error::OverflowPositive(x),
            Overflow::Negative(x) => Error::OverflowNegative(x),
        }
    }
}

/// Whether these terms can explain an overflow error in its direction.
///
/// A positive overflow needs a prefix whose greatest possible sum
/// leaves `i64` above, or a positively signed group whose greatest
/// possible roll does; a negative overflow needs the mirror image. An
/// error that is no overflow is not constrained.
pub open spec fn explains_overflow(exprs: Seq<Expr>, e: Error) -> bool {
    match e {
        Error::OverflowPositive(_) => (exists|n: int|
            0 <= n <= exprs.len() && #[trigger] sum_max(exprs, n) > i64::MAX) || (exists|i: int|
            0 <= i < exprs.len() && (#[trigger] exprs[i]).sign == Sign::Positive
                && (exprs[i].term matches Term::Dice(d) && d.spec_count() * d.spec_sides()
                > i64::MAX)),
        Error::OverflowNegative(_) => (exists|n: int|
            0 <= n <= exprs.len() && #[trigger] sum_min(exprs, n) < i64::MIN) || (exists|i: int|
            0 <= i < exprs.len() && (#[trigger] exprs[i]).sign == Sign::Negative
                && (exprs[i].term matches Term::Dice(d) && d.spec_count() * d.spec_sides()
                > i64::MAX)),
        _ => true,
    }
}

/// Appending one value adds it to the sum.
proof fn lemma_seq_sum_push(s: Seq<i64>, x: i64)
    ensures
        seq_sum(s.push(x)) == seq_sum(s) + x,
{
    assert(s.push(x).drop_last() =~= s);
    assert(s.push(x).last() == x);
}

/// A sequence of values each in `[lo, hi]` sums to something between
/// `len * lo` and `len * hi`.
proof fn lemma_seq_sum_bounds(s: Seq<i64>, lo: int, hi: int)
    requires
        forall|i: int| 0 <= i < s.len() ==> lo <= #[trigger] s[i] <= hi,
    ensures
        s.len() * lo <= seq_sum(s) <= s.len() * hi,
    decreases s.len(),
{
    if s.len() == 0 {
    } else {
        lemma_seq_sum_bounds(s.drop_last(), lo, hi);
        assert(s.drop_last().len() * lo + lo == s.len() * lo) by (nonlinear_arith)
            requires
                s.drop_last().len() + 1 == s.len(),
        ;
        assert(s.drop_last().len() * hi + hi == s.len() * hi) by (nonlinear_arith)
            requires
                s.drop_last().len() + 1 == s.len(),
        ;
        assert(lo <= s.last() <= hi);
    }
}

/// A faithful outcome of a well-formed term contributes a value between
/// the term's least and greatest possible contributions.
pub proof fn lemma_valid_eval_bounds(e: Expr, t: EvaluatedTerm)
    requires
        e.wf(),
        valid_eval(e, t),
    ensures
        e.spec_min() <= t.spec_value() <= e.spec_max(),
{
    match e.term {
        Term::Dice(d) => {
            let rd = t->Die_0;
            lemma_seq_sum_bounds(rd.parts@, 1, d.spec_sides());
            assert(rd.parts@.len() * 1 == d.spec_count());
        },
        Term::Constant(_) => {},
    }
}

/// Two sequences that agree on their first `n` pairs have the same
/// partial sums of values up to `n`.
proof fn lemma_values_sum_prefix(
    s1: Seq<(Expr, EvaluatedTerm)>,
    s2: Seq<(Expr, EvaluatedTerm)>,
    n: int,
)
    requires
        0 <= n <= s1.len(),
        n <= s2.len(),
        forall|i: int| 0 <= i < n ==> s1[i] == s2[i],
    ensures
        values_sum(s1, n) == values_sum(s2, n),
    decreases n,
{
    if n > 0 {
        lemma_values_sum_prefix(s1, s2, n - 1);
    }
}

/// Roll one group of dice.
///
/// A one-sided group consumes no randomness: each die shows 1. Any other
/// group draws one sample per die, in order, and sums them with checked
/// addition; a sum that leaves `i64` is always a positive overflow, and
/// can only happen when the group's greatest possible roll does.
fn roll_die_with<R: RollSource>(a: &DiceTerm, rng: &mut R) -> (r: Result<RolledDie, OverflowPositive>)
    requires
        a.wf(),
    ensures
        match r {
            Ok(rd) => {
                &&& rd.sign_part == Sign::Positive
                &&& rd.parts@.len() == a.spec_count()
                &&& forall|i: int|
                    0 <= i < rd.parts@.len() ==> 1 <= #[trigger] rd.parts@[i] <= a.spec_sides()
                &&& (a.spec_sides() == 1 ==> forall|i: int|
                    0 <= i < rd.parts@.len() ==> #[trigger] rd.parts@[i] == 1)
                &&& 0 <= seq_sum(rd.parts@) <= i64::MAX
                &&& rd.total == seq_sum(rd.parts@)
            },
            Err(_) => a.spec_count() * a.spec_sides() > i64::MAX,
        },
{
    let number = a.count();
    let size = a.sides();
    if size == 1 {
        let mut parts: Vec<i64> = Vec::new();
        let mut j: u64 = 0;
        while j < number
            invariant
                j <= number,
                parts@.len() == j,
                forall|i: int| 0 <= i < parts@.len() ==> #[trigger] parts@[i] == 1,
                seq_sum(parts@) == j,
                number <= i64::MAX,
            decreases number - j,
        {
            proof {
                lemma_seq_sum_push(parts@, 1);
            }
            parts.push(1i64);
            j += 1;
        }
        Ok(RolledDie { total: number as i64, parts, sign_part: Sign::Positive })
    } else {
        let mut total: i64 = 0;
        let mut parts: Vec<i64> = Vec::new();
        let mut j: u64 = 0;
        while j < number
            invariant
                a.wf(),
                2 <= size == a.spec_sides(),
                number == a.spec_count(),
                j <= number,
                parts@.len() == j,
                forall|i: int| 0 <= i < parts@.len() ==> 1 <= #[trigger] parts@[i] <= size,
                0 <= total,
                total == seq_sum(parts@),
            decreases number - j,
        {
            let sample = rng.sample(size);
            let random: i64 = sample as i64;
            if total > i64::MAX - random {
                proof {
                    lemma_seq_sum_bounds(parts@, 1, a.spec_sides());
                    assert((j as int) * a.spec_sides() + a.spec_sides() == (j + 1)
                        * a.spec_sides()) by (nonlinear_arith);
                    lemma_mul_inequality(j as int + 1, a.spec_count(), a.spec_sides());
                }
                return Err(OverflowPositive);
            }
            proof {
                lemma_seq_sum_push(parts@, random);
            }
            total = total + random;
            parts.push(random);
            j += 1;
        }
        Ok(RolledDie { total, parts, sign_part: Sign::Positive })
    }
}

/// Evaluate one signed term.
///
/// The unsigned outcome is computed first; the sign is applied only
/// afterwards, so a checked-sum failure inside a group is a positive
/// overflow which a negative sign then turns into a negative one.
fn eval_term_with<R: RollSource>(a: &Expr, rng: &mut R) -> (r: Result<EvaluatedTerm, Overflow>)
    requires
        a.wf(),
    ensures
        match r {
            Ok(t) => valid_eval(*a, t),
            Err(o) => {
                &&& a.term matches Term::Dice(d) && d.spec_count() * d.spec_sides() > i64::MAX
                &&& (o matches Overflow::Negative(_) <==> a.sign == Sign::Negative)
            },
        },
{
    match a.term {
        Term::Dice(x) => match roll_die_with(&x, rng) {
            Ok(rd) => {
                let signed = match a.sign {
                    Sign::Positive => rd,
                    Sign::Negative => RolledDie {
                        total: -rd.total,
                        sign_part: rd.sign_part.flip(),
                        parts: rd.parts,
                    },
                };
                Ok(EvaluatedTerm::Die(signed))
            },
            Err(e) => match a.sign {
                Sign::Positive => Err(Overflow::Positive(e)),
                Sign::Negative => Err(Overflow::Positive(e).flip()),
            },
        },
        Term::Constant(x) => Ok(
            EvaluatedTerm::Constant(
                match a.sign {
                    Sign::Positive => x,
                    Sign::Negative => -x,
                },
            ),
        ),
    }
}

/// Evaluate a list of signed terms in order against a source of
/// randomness.
///
/// Each term is paired with its realized outcome; the total is the
/// checked sum of the outcomes' signed values and always lies between
/// the least and greatest possible sums. An error is always an
/// overflow, reports the direction in which the running sum left `i64`,
/// and can only happen when the terms' possible sums leave `i64`: terms
/// within bounds evaluate successfully whatever the dice show.
pub(crate) fn roll_expr_iter_with<R: RollSource>(rng: &mut R, input: &Vec<Expr>) -> (r: Result<
    ExpressionResult,
    Error,
>)
    requires
        exprs_wf(input@),
    ensures
        match r {
            Ok(res) => {
                &&& res.spec_pairs().len() == input@.len()
                &&& forall|i: int|
                    0 <= i < input@.len() ==> (#[trigger] res.spec_pairs()[i]).0 == input@[i]
                &&& res.wf()
                &&& sum_min(input@, input@.len() as int) <= res.spec_total() <= sum_max(
                    input@,
                    input@.len() as int,
                )
            },
            Err(e) => e.is_overflow() && !within_bounds(input@) && explains_overflow(input@, e),
        },
{
    let mut pairs: Vec<(Expr, EvaluatedTerm)> = Vec::new();
    let mut total: i64 = 0;
    let mut k: usize = 0;
    while k < input.len()
        invariant
            exprs_wf(input@),
            k <= input@.len(),
            pairs@.len() == k,
            forall|i: int| 0 <= i < k ==> (#[trigger] pairs@[i]).0 == input@[i],
            pairs_wf(pairs@),
            total == values_sum(pairs@, k as int),
            sum_min(input@, k as int) <= total <= sum_max(input@, k as int),
        decreases input@.len() - k,
    {
        let x = input[k];
        match eval_term_with(&x, rng) {
            Ok(res) => {
                let res_val = res.value();
                proof {
                    lemma_valid_eval_bounds(x, res);
                }
                let overflowed = if res_val >= 0 {
                    total > i64::MAX - res_val
                } else {
                    total < i64::MIN - res_val
                };
                if overflowed {
                    proof {
                        let n = k as int + 1;
                        assert(sum_max(input@, n) == sum_max(input@, n - 1)
                            + input@[n - 1].spec_max());
                        assert(sum_min(input@, n) == sum_min(input@, n - 1)
                            + input@[n - 1].spec_min());
                        if res_val >= 0 {
                            assert(sum_max(input@, n) > i64::MAX);
                        } else {
                            assert(sum_min(input@, n) < i64::MIN);
                        }
                    }
                    return Err(
                        if res_val > 0 {
                            Error::OverflowPositive(OverflowPositive)
                        } else {
                            Error::OverflowNegative(OverflowNegative)
                        },
                    );
                }
                proof {
                    let ghost g = pairs@.push((x, res));
                    lemma_values_sum_prefix(g, pairs@, k as int);
                    assert(values_sum(g, k as int + 1) == total + res.spec_value());
                }
                total = total + res_val;
                pairs.push((x, res));
                k += 1;
            },
            Err(o) => {
                proof {
                    assert(input@[k as int] == x);
                }
                return Err(o.into_error());
            },
        }
    }
    Ok(ExpressionResult::new(pairs, total))
}

/// Evaluate a dice expression from source text, drawing randomness
/// from the thread-local generator.
///
/// The input is trimmed and parsed whole; what does not match the
/// grammar, including trailing text and oversized literals, is an
/// `InvalidExpression` error, and a parse containing a zero-sided die
/// is too. A successful evaluation pairs each term with a faithful
/// outcome whose total lies between the least and greatest sums the
/// expression allows; an evaluation failure is always an overflow and
/// can only happen when those sums leave `i64`.
pub fn roll(input: &str) -> (r: Result<ExpressionResult, Error>)
    ensures
        match parse::spec_wrap_dice(input.spec_bytes()) {
            None => r matches Err(e) && e == Error::InvalidExpression(
                ParseError::InvalidExpression,
            ),
            Some(exprs) => match r {
                Ok(res) => {
                    &&& res.spec_pairs().len() == exprs.len()
                    &&& forall|i: int|
                        0 <= i < exprs.len() ==> (#[trigger] res.spec_pairs()[i]).0 == exprs[i]
                    &&& res.wf()
                    &&& sum_min(exprs, exprs.len() as int) <= res.spec_total() <= sum_max(
                        exprs,
                        exprs.len() as int,
                    )
                },
                Err(e) => e.is_overflow() && !within_bounds(exprs) && explains_overflow(
                    exprs,
                    e,
                ),
            },
        },
{
    match parse::wrap_dice(input) {
        Err(_) => Err(Error::InvalidExpression(ParseError::InvalidExpression)),
        Ok(e) => e.roll(),
    }
}

} // verus!
