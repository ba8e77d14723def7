//! A builder for rolls.
//!
//! The builder accumulates an optional expression — parsed from a
//! string or converted from tuples — and optionally a caller-supplied
//! source of randomness in place of the default thread-local one.
//! Finalizing yields a [`Roll`] that can be evaluated any number of
//! times, each evaluation drawing fresh randomness.
use vstd::prelude::*;
use vstd::string::StringSliceAdditionalSpecFns;
use crate::error::Error;
use crate::expose::{exprs_from_tuples, spec_exprs_from_tuples};
use crate::parse::{
    spec_wrap_dice, sum_max, sum_min, within_bounds, wrap_dice, Expr, Expression, InvalidDie,
    ParseError,
};
use crate::post::ExpressionResult;
use crate::rng::{RollSource, ThreadSource};

verus! {

/// Finalizing a builder that was never given an expression.
#[derive(Debug, Clone, Copy, PartialEq, Eq, Structural)]
pub enum BuildError {
    NoExpression,
}

/// A builder holding an optional expression and no source of
/// randomness yet.
pub struct RollBuilder {
    expression: Option<Expression>,
}

impl RollBuilder {
    /// The expression accumulated so far, as its signed terms.
    pub closed spec fn spec_exprs(&self) -> Option<Seq<Expr>> {
        match self.expression {
            Some(e) => Some(e@),
            None => None,
        }
    }

    /// Whatever expression is held is well formed.
    pub closed spec fn wf(&self) -> bool {
        self.expression matches Some(e) ==> e.wf()
    }

    /// A builder holding nothing.
    pub fn new() -> (r: RollBuilder)
        ensures
            r.spec_exprs() is None,
            r.wf(),
    {
        RollBuilder { expression: None }
    }

    /// Parse an input string into the builder's expression.
    pub fn parse(self, input: &str) -> (r: Result<RollBuilder, ParseError>)
        ensures
            match spec_wrap_dice(input.spec_bytes()) {
                Some(exprs) => r matches Ok(b) && b.spec_exprs() == Some(exprs) && b.wf(),
                None => r matches Err(pe) && pe == ParseError::InvalidExpression,
            },
    {
        let expression = wrap_dice(input)?;
        Ok(RollBuilder { expression: Some(expression) })
    }

    /// Convert a list of tuples into the builder's expression.
    pub fn with_tuples(self, tuples: &[(i64, i64)]) -> (r: Result<RollBuilder, InvalidDie>)
        ensures
            match spec_exprs_from_tuples(tuples@) {
                Ok(exprs) => r matches Ok(b) && b.spec_exprs() == Some(exprs) && b.wf(),
                Err(e) => r matches Err(e2) && e2 == e,
            },
    {
        let v = exprs_from_tuples(tuples)?;
        Ok(RollBuilder { expression: Some(Expression::from_exprs(v)) })
    }

    /// Supply an already-built expression.
    pub(crate) fn with_expression(self, expression: Expression) -> (r: RollBuilder)
        ensures
            r.spec_exprs() == Some(expression@),
            expression.wf() ==> r.wf(),
    {
        RollBuilder { expression: Some(expression) }
    }

    /// Supply a source of randomness of the caller's own.
    pub fn with_rng<R: RollSource>(self, rng: R) -> (r: RollBuilderWithRng<R>)
        ensures
            r.spec_exprs() == self.spec_exprs(),
            self.wf() ==> r.wf(),
    {
        RollBuilderWithRng { generator: rng, expression: self.expression }
    }

    /// Finalize with the thread-local generator as the source of
    /// randomness. Fails exactly when no expression was supplied.
    pub fn into_roll(self) -> (r: Result<Roll<ThreadSource>, BuildError>)
        requires
            self.wf(),
        ensures
            match self.spec_exprs() {
                None => r matches Err(e) && e == BuildError::NoExpression,
                Some(exprs) => r matches Ok(roll) && roll.spec_exprs() == exprs && roll.wf(),
            },
    {
        match self.expression {
            None => Err(BuildError::NoExpression),
            Some(expression) => Ok(Roll { expression, generator: ThreadSource::new() }),
        }
    }
}

/// A builder holding an optional expression and a source of randomness
/// of the caller's own.
pub struct RollBuilderWithRng<R: RollSource> {
    expression: Option<Expression>,
    generator: R,
}

impl<R: RollSource> RollBuilderWithRng<R> {
    /// The expression accumulated so far, as its signed terms.
    pub closed spec fn spec_exprs(&self) -> Option<Seq<Expr>> {
        match self.expression {
            Some(e) => Some(e@),
            None => None,
        }
    }

    /// Whatever expression is held is well formed.
    pub closed spec fn wf(&self) -> bool {
        self.expression matches Some(e) ==> e.wf()
    }

    /// Finalize. Fails exactly when no expression was supplied.
    pub fn into_roll(self) -> (r: Result<Roll<R>, BuildError>)
        requires
            self.wf(),
        ensures
            match self.spec_exprs() {
                None => r matches Err(e) && e == BuildError::NoExpression,
                Some(exprs) => r matches Ok(roll) && roll.spec_exprs() == exprs && roll.wf(),
            },
    {
        match self.expression {
            None => Err(BuildError::NoExpression),
            Some(expression) => Ok(Roll { expression, generator: self.generator }),
        }
    }

    /// Parse an input string into the builder's expression.
    pub fn parse(self, input: &str) -> (r: Result<RollBuilderWithRng<R>, ParseError>)
        ensures
            match spec_wrap_dice(input.spec_bytes()) {
                Some(exprs) => r matches Ok(b) && b.spec_exprs() == Some(exprs) && b.wf(),
                None => r matches Err(pe) && pe == ParseError::InvalidExpression,
            },
    {
        match wrap_dice(input) {
            Err(pe) => Err(pe),
            Ok(expression) => Ok(
                RollBuilderWithRng { expression: Some(expression), generator: self.generator },
            ),
        }
    }

    /// Convert a list of tuples into the builder's expression.
    pub fn with_tuples(self, tuples: &[(i64, i64)]) -> (r: Result<RollBuilderWithRng<R>, InvalidDie>)
        ensures
            match spec_exprs_from_tuples(tuples@) {
                Ok(exprs) => r matches Ok(b) && b.spec_exprs() == Some(exprs) && b.wf(),
                Err(e) => r matches Err(e2) && e2 == e,
            },
    {
        match exprs_from_tuples(tuples) {
            Err(e) => Err(e),
            Ok(v) => Ok(
                RollBuilderWithRng {
                    expression: Some(Expression::from_exprs(v)),
                    generator: self.generator,
                },
            ),
        }
    }

    /// Supply an already-built expression.
    pub(crate) fn with_expression(self, expression: Expression) -> (r: RollBuilderWithRng<R>)
        ensures
            r.spec_exprs() == Some(expression@),
            expression.wf() ==> r.wf(),
    {
        RollBuilderWithRng { expression: Some(expression), generator: self.generator }
    }
}

/// A finalized roll: an expression and a source of randomness, ready
/// to be evaluated over and over.
pub struct Roll<R: RollSource> {
    expression: Expression,
    generator: R,
}

impl<R: RollSource> Roll<R> {
    /// The signed terms of the expression this roll evaluates.
    pub closed spec fn spec_exprs(&self) -> Seq<Expr> {
        self.expression@
    }

    /// The expression is well formed.
    pub closed spec fn wf(&self) -> bool {
        self.expression.wf()
    }

    /// Evaluate the expression once, consuming fresh randomness.
    pub fn roll(&mut self) -> (r: Result<ExpressionResult, Error>)
        requires
            old(self).wf(),
        ensures
            final(self).wf(),
            final(self).spec_exprs() == old(self).spec_exprs(),
            match r {
                Ok(res) => {
                    &&& res.spec_pairs().len() == old(self).spec_exprs().len()
                    &&& forall|i: int|
                        0 <= i < old(self).spec_exprs().len() ==> (#[trigger] res.spec_pairs()[i]).0
                            == old(self).spec_exprs()[i]
                    &&& res.wf()
                    &&& sum_min(old(self).spec_exprs(), old(self).spec_exprs().len() as int)
                        <= res.spec_total() <= sum_max(
                        old(self).spec_exprs(),
                        old(self).spec_exprs().len() as int,
                    )
                },
                Err(e) => e.is_overflow() && !within_bounds(old(self).spec_exprs())
                    && crate::explains_overflow(old(self).spec_exprs(), e),
            },
    {
        crate::roll_expr_iter_with(&mut self.generator, self.expression.exprs())
    }
}

} // verus!
