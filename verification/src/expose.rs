//! The tuple interchange form of expressions.
//!
//! A signed term travels across plain boundaries as a pair
//! `(signed_count, sides)`: `sides == 1` denotes a constant of value
//! `signed_count`, any greater `sides` a group of dice, and the sign of
//! `signed_count` the sign of the term.
use vstd::prelude::*;
use vstd::string::StringSliceAdditionalSpecFns;
use crate::error::Error;
use crate::parse::{
    dice_term_model, spec_wrap_dice, wrap_dice, DiceTerm, Expr, InvalidDie, ParseError, Sign, Term,
};

verus! {

/// One signed term as a plain pair: `(signed_count, sides)`.
pub type ExprTuple = (i64, i64);

/// The signed term a tuple denotes, if it denotes one: `sides == 1` a
/// constant, `sides >= 2` a group of dice, and anything else — a die
/// with fewer than one side, or a count whose magnitude cannot be
/// stored — is turned away.
pub open spec fn spec_expr_from_tuple(t: (i64, i64)) -> Result<Expr, InvalidDie> {
    let n = t.0 as int;
    let s = t.1 as int;
    let mag = if n < 0 {
        -n
    } else {
        n
    };
    let sg = if n < 0 {
        Sign::Negative
    } else {
        Sign::Positive
    };
    if mag > i64::MAX || s < 1 {
        Err(InvalidDie)
    } else if s == 1 {
        Ok(Expr { term: Term::Constant(mag as i64), sign: sg })
    } else {
        Ok(Expr { term: Term::Dice(dice_term_model(mag, s)), sign: sg })
    }
}

/// The tuple denoting a signed term.
pub open spec fn spec_tuple_from_expr(e: Expr) -> (int, int) {
    match e.term {
        Term::Dice(d) => (e.sign.spec_apply(d.spec_count()), d.spec_sides()),
        Term::Constant(c) => (e.sign.spec_apply(c as int), 1),
    }
}

/// The signed terms a list of tuples denotes; the first bad tuple
/// poisons the whole list.
pub open spec fn spec_exprs_from_tuples(ts: Seq<(i64, i64)>) -> Result<Seq<Expr>, InvalidDie>
    decreases ts.len(),
{
    if ts.len() == 0 {
        Ok(Seq::empty())
    } else {
        match spec_expr_from_tuple(ts[0]) {
            Err(e) => Err(e),
            Ok(x) => match spec_exprs_from_tuples(ts.drop_first()) {
                Err(e) => Err(e),
                Ok(rest) => Ok(seq![x] + rest),
            },
        }
    }
}

/// Convert one tuple into a signed term.
pub(crate) fn expr_from_tuple(t: (i64, i64)) -> (r: Result<Expr, InvalidDie>)
    ensures
        r == spec_expr_from_tuple(t),
        r matches Ok(e) ==> e.wf(),
{
    let (n, s) = t;
    if n == i64::MIN || s < 1 {
        // The magnitude of `i64::MIN` cannot be stored as a count.
        Err(InvalidDie)
    } else {
        let mag: i64 = if n < 0 {
            -n
        } else {
            n
        };
        let sg = if n < 0 {
            Sign::Negative
        } else {
            Sign::Positive
        };
        if s == 1 {
            Ok(Expr { term: Term::Constant(mag), sign: sg })
        } else {
            Ok(Expr { term: Term::Dice(DiceTerm::from_parts(mag, s)), sign: sg })
        }
    }
}

/// Convert one signed term into its tuple.
pub(crate) fn tuple_from_expr(e: &Expr) -> (r: (i64, i64))
    requires
        e.wf(),
    ensures
        (r.0 as int, r.1 as int) == spec_tuple_from_expr(*e),
{
    match e.term {
        Term::Dice(d) => {
            let n = d.count() as i64;
            let s = d.sides() as i64;
            match e.sign {
                Sign::Positive => (n, s),
                Sign::Negative => (-n, s),
            }
        },
        Term::Constant(c) => match e.sign {
            Sign::Positive => (c, 1),
            Sign::Negative => (-c, 1),
        },
    }
}

/// The terms the first `n` tuples convert to, assuming each converts.
pub open spec fn oks_of_tuples(ts: Seq<(i64, i64)>, n: int) -> Seq<Expr> {
    Seq::new(n as nat, |j: int| spec_expr_from_tuple(ts[j])->Ok_0)
}

/// The whole fold, split at position `i`: the first `i` tuples convert
/// cleanly, and the rest decides the outcome.
proof fn lemma_tuples_fold_skip(ts: Seq<(i64, i64)>, i: int)
    requires
        0 <= i <= ts.len(),
        forall|j: int| 0 <= j < i ==> (#[trigger] spec_expr_from_tuple(ts[j])) matches Ok(_),
    ensures
        match spec_exprs_from_tuples(ts.skip(i)) {
            Err(e) => spec_exprs_from_tuples(ts) == Result::<Seq<Expr>, InvalidDie>::Err(e),
            Ok(rest) => spec_exprs_from_tuples(ts) == Result::<Seq<Expr>, InvalidDie>::Ok(
                oks_of_tuples(ts, i) + rest,
            ),
        },
    decreases i,
{
    if i == 0 {
        assert(ts.skip(0) =~= ts);
        match spec_exprs_from_tuples(ts) {
            Err(_) => {},
            Ok(full) => {
                assert(oks_of_tuples(ts, 0) + full =~= full);
            },
        }
    } else {
        lemma_tuples_fold_skip(ts, i - 1);
        let prev = ts.skip(i - 1);
        assert(prev[0] == ts[i - 1]);
        assert(prev.drop_first() =~= ts.skip(i));
        let x = spec_expr_from_tuple(ts[i - 1])->Ok_0;
        match spec_exprs_from_tuples(ts.skip(i)) {
            Err(_) => {},
            Ok(rest) => {
                assert(oks_of_tuples(ts, i - 1) + (seq![x] + rest) =~= oks_of_tuples(ts, i)
                    + rest);
            },
        }
    }
}

/// Convert a whole list of tuples into signed terms.
pub(crate) fn exprs_from_tuples(ts: &[(i64, i64)]) -> (r: Result<Vec<Expr>, InvalidDie>)
    ensures
        match spec_exprs_from_tuples(ts@) {
            Err(e) => r matches Err(e2) && e2 == e,
            Ok(exprs) => r matches Ok(v) && v@ == exprs && crate::parse::exprs_wf(v@),
        },
{
    let mut out: Vec<Expr> = Vec::new();
    let mut i: usize = 0;
    while i < ts.len()
        invariant
            i <= ts@.len(),
            out@.len() == i,
            forall|j: int| 0 <= j < i ==> (#[trigger] out@[j]).wf(),
            forall|j: int|
                0 <= j < i ==> ((#[trigger] spec_expr_from_tuple(ts@[j])) matches Ok(e) && e
                    == out@[j]),
        decreases ts@.len() - i,
    {
        match expr_from_tuple(ts[i]) {
            Err(e) => {
                proof {
                    lemma_tuples_fold_skip(ts@, i as int);
                    assert(ts@.skip(i as int)[0] == ts@[i as int]);
                }
                return Err(e);
            },
            Ok(x) => {
                out.push(x);
                i += 1;
            },
        }
    }
    proof {
        lemma_tuples_fold_skip(ts@, i as int);
        assert(ts@.skip(i as int) =~= Seq::<(i64, i64)>::empty());
        match spec_exprs_from_tuples(ts@) {
            Err(_) => {},
            Ok(exprs) => {
                assert(oks_of_tuples(ts@, i as int) + Seq::<Expr>::empty() =~= oks_of_tuples(
                    ts@,
                    i as int,
                ));
                assert(out@ =~= oks_of_tuples(ts@, i as int));
            },
        }
    }
    Ok(out)
}

/// Parse an input string and hand its terms back as tuples, in source
/// order.
pub fn tuple_vec(input: &str) -> (r: Result<Vec<(i64, i64)>, ParseError>)
    ensures
        match spec_wrap_dice(input.spec_bytes()) {
            None => r matches Err(pe) && pe == ParseError::InvalidExpression,
            Some(exprs) => r matches Ok(v) && v@.len() == exprs.len() && forall|i: int|
                0 <= i < exprs.len() ==> ((#[trigger] v@[i]).0 as int, v@[i].1 as int)
                    == spec_tuple_from_expr(exprs[i]),
        },
{
    let e = match wrap_dice(input) {
        Err(pe) => {
            return Err(pe);
        },
        Ok(e) => e,
    };
    let exprs = e.exprs();
    let mut out: Vec<(i64, i64)> = Vec::new();
    let mut i: usize = 0;
    while i < exprs.len()
        invariant
            i <= exprs@.len(),
            out@.len() == i,
            crate::parse::exprs_wf(exprs@),
            forall|j: int|
                0 <= j < i ==> ((#[trigger] out@[j]).0 as int, out@[j].1 as int)
                    == spec_tuple_from_expr(exprs@[j]),
        decreases exprs@.len() - i,
    {
        out.push(tuple_from_expr(&exprs[i]));
        i += 1;
    }
    Ok(out)
}

/// Roll and sum a list of tuples, drawing randomness from the
/// thread-local generator.
///
/// A tuple that denotes no term is an `InvalidExpression` error, as it
/// is when such a tuple is met while parsing.
pub fn roll_tuples(input: &[(i64, i64)]) -> (r: Result<crate::ExpressionResult, Error>)
    ensures
        match spec_exprs_from_tuples(input@) {
            Err(_) => r matches Err(e) && e == Error::InvalidExpression(
                ParseError::InvalidExpression,
            ),
            Ok(exprs) => match r {
                Ok(res) => {
                    &&& res.spec_pairs().len() == exprs.len()
                    &&& forall|i: int|
                        0 <= i < exprs.len() ==> (#[trigger] res.spec_pairs()[i]).0 == exprs[i]
                    &&& res.wf()
                },
                Err(e) => e.is_overflow() && !crate::parse::within_bounds(exprs)
                    && crate::explains_overflow(exprs, e),
            },
        },
{
    match exprs_from_tuples(input) {
        Err(_) => Err(Error::InvalidExpression(ParseError::InvalidExpression)),
        Ok(v) => {
            let mut source = crate::rng::ThreadSource::new();
            crate::roll_expr_iter_with(&mut source, &v)
        },
    }
}

} // verus!
