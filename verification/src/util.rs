//! The cost cap: bounding the work of evaluating untrusted input.
//!
//! Evaluating an expression costs one elementary step per die and one
//! per constant term; a one-sided dice group costs one step in all,
//! matching its randomness-free fast path. The cap is checked in full
//! before any randomness is consumed.
use vstd::prelude::*;
use vstd::string::StringSliceAdditionalSpecFns;
use crate::error::Error;
use crate::parse::{
    spec_wrap_dice, sum_max, sum_min, within_bounds, wrap_dice, Expr, Expression, ParseError, Term,
};
use crate::post::ExpressionResult;
use crate::rng::ThreadSource;

verus! {

/// Everything that can go wrong in a capped roll.
#[derive(Debug, Clone, Copy, PartialEq, Eq, Structural)]
pub enum UtilError {
    /// The expression's evaluation cost exceeds the cap.
    ExceededCap,
    /// Parsing or evaluation failed.
    RollError(Error),
}

/// The expression's evaluation cost exceeds the cap.
#[derive(Debug, Clone, Copy, PartialEq, Eq, Structural)]
pub struct ExceededCap;

/// The evaluation cost of one signed term: one step per die of a
/// many-sided group, one step for a one-sided group or a constant.
pub open spec fn term_cost(e: Expr) -> int {
    match e.term {
        Term::Dice(d) => if d.spec_sides() > 1 {
            d.spec_count()
        } else {
            1
        },
        Term::Constant(_) => 1,
    }
}

/// The evaluation cost of the first `n` terms.
pub open spec fn cost(exprs: Seq<Expr>, n: int) -> int
    decreases n,
{
    if n <= 0 {
        0
    } else {
        cost(exprs, n - 1) + term_cost(exprs[n - 1])
    }
}

/// Costs of well-formed terms never shrink as terms are added.
proof fn lemma_cost_monotone(exprs: Seq<Expr>, n: int, m: int)
    requires
        crate::parse::exprs_wf(exprs),
        0 <= n <= m <= exprs.len(),
    ensures
        0 <= cost(exprs, n) <= cost(exprs, m),
    decreases m,
{
    if m > 0 {
        if n == m {
            lemma_cost_monotone(exprs, n - 1, m - 1);
        } else {
            lemma_cost_monotone(exprs, n, m - 1);
        }
    }
}

/// Whether evaluating these terms takes more elementary steps than
/// `cap` allows. Scanning stops as soon as the answer is known.
fn exceeds_cap_impl(dice: &Expression, cap: i64) -> (r: bool)
    requires
        dice.wf(),
    ensures
        r == (cost(dice@, dice@.len() as int) > cap),
{
    if cap < 0 {
        proof {
            lemma_cost_monotone(dice@, 0, dice@.len() as int);
        }
        return true;
    }
    let capn: u128 = cap as u128;
    let exprs = dice.exprs();
    let mut acc: u128 = 0;
    let mut i: usize = 0;
    while i < exprs.len()
        invariant
            dice.wf(),
            exprs@ == dice@,
            i <= exprs@.len(),
            0 <= cap,
            capn == cap,
            acc == cost(dice@, i as int),
            acc <= capn,
        decreases exprs@.len() - i,
    {
        let step: u64 = match exprs[i].term {
            Term::Dice(d) => {
                if d.sides() > 1 {
                    d.count()
                } else {
                    1
                }
            },
            Term::Constant(_) => 1,
        };
        acc = acc + step as u128;
        i += 1;
        if acc > capn {
            proof {
                lemma_cost_monotone(dice@, i as int, dice@.len() as int);
            }
            return true;
        }
    }
    false
}

/// Sealing trait: [`ExpressionExt`] cannot be implemented outside this
/// crate.
pub trait Sealed {

}

impl Sealed for Expression {

}

/// An extension of [`Expression`] with the cost-cap check.
pub trait ExpressionExt: Sealed {
    /// The expression as its signed terms.
    spec fn ext_exprs(&self) -> Seq<Expr>;

    /// Validity of the expression's terms.
    spec fn ext_wf(&self) -> bool;

    /// Whether evaluating the expression takes more elementary steps
    /// than `cap` allows: one step per die, one per constant, a
    /// one-sided dice group counting as one step in all.
    fn exceeds_cap(&self, cap: i64) -> (r: bool)
        requires
            self.ext_wf(),
        ensures
            r == (cost(self.ext_exprs(), self.ext_exprs().len() as int) > cap),
    ;
}

impl ExpressionExt for Expression {
    open spec fn ext_exprs(&self) -> Seq<Expr> {
        self@
    }

    open spec fn ext_wf(&self) -> bool {
        self.wf()
    }

    fn exceeds_cap(&self, cap: i64) -> (r: bool) {
        exceeds_cap_impl(self, cap)
    }
}

/// Evaluate an expression only if its cost stays within `cap`;
/// otherwise fail with [`ExceededCap`] before consuming any
/// randomness.
pub fn roll_exp_capped(dice: Expression, cap: i64) -> (r: Result<
    Result<ExpressionResult, Error>,
    ExceededCap,
>)
    requires
        dice.wf(),
    ensures
        match r {
            Err(_) => cost(dice@, dice@.len() as int) > cap,
            Ok(inner) => cost(dice@, dice@.len() as int) <= cap && (match inner {
                Ok(res) => {
                    &&& res.spec_pairs().len() == dice@.len()
                    &&& forall|i: int|
                        0 <= i < dice@.len() ==> (#[trigger] res.spec_pairs()[i]).0 == dice@[i]
                    &&& res.wf()
                    &&& sum_min(dice@, dice@.len() as int) <= res.spec_total() <= sum_max(
                        dice@,
                        dice@.len() as int,
                    )
                },
                Err(e) => e.is_overflow() && !within_bounds(dice@) && crate::explains_overflow(
                    dice@,
                    e,
                ),
            }),
        },
{
    if !exceeds_cap_impl(&dice, cap) {
        let mut source = ThreadSource::new();
        Ok(crate::roll_expr_iter_with(&mut source, dice.exprs()))
    } else {
        Err(ExceededCap)
    }
}

/// Parse an input string, check its evaluation cost against `cap`, and
/// only then evaluate it with the thread-local generator.
///
/// The cost check happens entirely before any randomness is consumed:
/// an over-cap expression fails with [`UtilError::ExceededCap`] and is
/// never evaluated.
pub fn roll_capped(input: &str, cap: i64) -> (r: Result<ExpressionResult, UtilError>)
    ensures
        match spec_wrap_dice(input.spec_bytes()) {
            None => r matches Err(e) && e == UtilError::RollError(
                Error::InvalidExpression(ParseError::InvalidExpression),
            ),
            Some(exprs) => if cost(exprs, exprs.len() as int) > cap {
                r matches Err(e) && e == UtilError::ExceededCap
            } else {
                match r {
                    Ok(res) => {
                        &&& res.spec_pairs().len() == exprs.len()
                        &&& forall|i: int|
                            0 <= i < exprs.len() ==> (#[trigger] res.spec_pairs()[i]).0 == exprs[i]
                        &&& res.wf()
                        &&& sum_min(exprs, exprs.len() as int) <= res.spec_total() <= sum_max(
                            exprs,
                            exprs.len() as int,
                        )
                    },
                    Err(e) => e matches UtilError::RollError(re) && re.is_overflow()
                        && !within_bounds(exprs) && crate::explains_overflow(exprs, re),
                }
            },
        },
{
    let dice = match wrap_dice(input) {
        Err(_) => {
            return Err(
                UtilError::RollError(Error::InvalidExpression(ParseError::InvalidExpression)),
            );
        },
        Ok(e) => e,
    };
    match roll_exp_capped(dice, cap) {
        Ok(Ok(x)) => Ok(x),
        Ok(Err(e)) => Err(UtilError::RollError(e)),
        Err(_) => Err(UtilError::ExceededCap),
    }
}

} // verus!
