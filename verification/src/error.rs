//! The library's error type.
use vstd::prelude::*;
use crate::parse::ParseError;
use crate::{OverflowNegative, OverflowPositive};

verus! {

/// Everything that can go wrong while parsing or evaluating a dice
/// expression.
#[derive(Debug, Clone, Copy, PartialEq, Eq, Structural)]
pub enum Error {
    /// A die with fewer than one side was used.
    InvalidDie,
    /// The sum of terms is greater than what an `i64` can hold.
    OverflowPositive(OverflowPositive),
    /// The sum of terms is lower than what an `i64` can hold.
    OverflowNegative(OverflowNegative),
    /// The input is not a valid dice expression.
    InvalidExpression(ParseError),
}

impl Error {
    /// Whether this error reports an overflow, in either direction.
    pub open spec fn is_overflow(self) -> bool {
        self matches Error::OverflowPositive(_) || self matches Error::OverflowNegative(_)
    }

    /// The error that describes the negated sum: overflow directions
    /// swap, everything else stands.
    pub open spec fn spec_flip(self) -> Error {
        match self {
            Error::OverflowPositive(_) => Error::OverflowNegative(OverflowNegative),
            Error::OverflowNegative(_) => Error::OverflowPositive(OverflowPositive),
            x => x,
        }
    }

    /// The error that describes the negated sum.
    pub fn flip(self) -> (r: Error)
        ensures
            r == self.spec_flip(),
    {
        match self {
            Error::OverflowPositive(_) => Error::OverflowNegative(OverflowNegative),
            Error::OverflowNegative(_) => Error::OverflowPositive(OverflowPositive),
            x => x,
        }
    }

    /// A short description of the error.
    pub fn describe(&self) -> (r: &'static str)
        ensures
            r@.len() > 0,
    {
        let s = match self {
            Error::InvalidDie => "invalid die",
            Error::OverflowPositive(_) => "sum is too high for `i64`",
            Error::OverflowNegative(_) => "sum is too low for `i64`",
            Error::InvalidExpression(_) => "you've specified an invalid dice expression",
        };
        proof {
            reveal_strlit("invalid die");
            reveal_strlit("sum is too high for `i64`");
            reveal_strlit("sum is too low for `i64`");
            reveal_strlit("you've specified an invalid dice expression");
        }
        s
    }
}

} // verus!
