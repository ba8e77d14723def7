//! Evaluation results and formatting options.
use vstd::prelude::*;
use crate::parse::{Expr, Sign, Term};

verus! {

/// Sum of a sequence of rolled face values.
pub open spec fn seq_sum(s: Seq<i64>) -> int
    decreases s.len(),
{
    if s.len() == 0 {
        0
    } else {
        seq_sum(s.drop_last()) + s.last()
    }
}

/// The realized outcome of one dice term.
///
/// `parts` holds the individual face values in the order they were
/// drawn; `total` is their sum with the term's sign already applied;
/// `sign_part` is that sign.
#[derive(Debug, Clone)]
pub struct RolledDie {
    pub total: i64,
    pub parts: Vec<i64>,
    pub sign_part: Sign,
}

/// The realized outcome of one term: a rolled group of dice, or a signed
/// constant.
#[derive(Debug, Clone)]
pub enum EvaluatedTerm {
    Die(RolledDie),
    Constant(i64),
}

impl EvaluatedTerm {
    /// The signed contribution of this outcome to the sum.
    pub open spec fn spec_value(self) -> int {
        match self {
            EvaluatedTerm::Die(x) => x.total as int,
            EvaluatedTerm::Constant(x) => x as int,
        }
    }

    /// The individual signed-magnitude parts shown for this outcome:
    /// each face of a rolled group, or the constant itself.
    pub open spec fn spec_parts(self) -> Seq<i64> {
        match self {
            EvaluatedTerm::Die(x) => x.parts@,
            EvaluatedTerm::Constant(x) => seq![x],
        }
    }

    /// The sign under which this outcome entered the sum.
    pub open spec fn spec_sign(self) -> Sign {
        match self {
            EvaluatedTerm::Die(x) => x.sign_part,
            EvaluatedTerm::Constant(x) => if x >= 0 {
                Sign::Positive
            } else {
                Sign::Negative
            },
        }
    }

    /// The signed contribution of this outcome to the sum.
    pub fn value(&self) -> (r: i64)
        ensures
            r == self.spec_value(),
    {
        match self {
            EvaluatedTerm::Die(x) => x.total,
            EvaluatedTerm::Constant(x) => *x,
        }
    }
}

/// What counts as a faithful outcome of one signed term.
///
/// A dice term yields a rolled group carrying the term's sign, one part
/// per die, each part between 1 and the number of sides (every part 1
/// for a one-sided die), the unsigned sum fitting in an `i64` and the
/// total being that sum under the term's sign. A constant term yields
/// the constant under the term's sign.
pub open spec fn valid_eval(e: Expr, t: EvaluatedTerm) -> bool {
    match e.term {
        Term::Dice(d) => t matches EvaluatedTerm::Die(rd) && {
            &&& rd.sign_part == e.sign
            &&& rd.parts@.len() == d.spec_count()
            &&& forall|i: int| 0 <= i < rd.parts@.len() ==> 1 <= #[trigger] rd.parts@[i] <= d.spec_sides()
            &&& (d.spec_sides() == 1 ==> forall|i: int|
                0 <= i < rd.parts@.len() ==> #[trigger] rd.parts@[i] == 1)
            &&& seq_sum(rd.parts@) <= i64::MAX
            &&& rd.total == e.sign.spec_apply(seq_sum(rd.parts@))
        },
        Term::Constant(c) => t matches EvaluatedTerm::Constant(v) && v == e.sign.spec_apply(
            c as int,
        ),
    }
}

/// Validity of a whole list of term outcomes against their terms.
pub open spec fn pairs_wf(pairs: Seq<(Expr, EvaluatedTerm)>) -> bool {
    forall|i: int|
        0 <= i < pairs.len() ==> (#[trigger] pairs[i]).0.wf() && valid_eval(pairs[i].0, pairs[i].1)
}

/// Sum of the signed values of the first `n` outcomes.
pub open spec fn values_sum(pairs: Seq<(Expr, EvaluatedTerm)>, n: int) -> int
    decreases n,
{
    if n <= 0 {
        0
    } else {
        values_sum(pairs, n - 1) + pairs[n - 1].1.spec_value()
    }
}

/// The result of evaluating a dice expression: each signed term paired
/// with its realized outcome, in source order, and the checked sum of
/// all outcomes.
#[derive(Debug, Clone)]
pub struct ExpressionResult {
    pairs: Vec<(Expr, EvaluatedTerm)>,
    total: i64,
}

impl ExpressionResult {
    /// Each signed term with its realized outcome, in source order.
    pub closed spec fn spec_pairs(&self) -> Seq<(Expr, EvaluatedTerm)> {
        self.pairs@
    }

    /// The checked sum of all outcomes.
    pub closed spec fn spec_total(&self) -> int {
        self.total as int
    }

    /// Every outcome is faithful to its term and the total is their sum.
    pub open spec fn wf(&self) -> bool {
        pairs_wf(self.spec_pairs()) && self.spec_total() == values_sum(
            self.spec_pairs(),
            self.spec_pairs().len() as int,
        )
    }

    /// Crate-internal constructor.
    pub(crate) fn new(pairs: Vec<(Expr, EvaluatedTerm)>, total: i64) -> (r: ExpressionResult)
        ensures
            r.spec_pairs() == pairs@,
            r.spec_total() == total,
    {
        ExpressionResult { pairs, total }
    }

    /// Sum of all evaluated terms.
    pub fn total(&self) -> (r: i64)
        ensures
            r == self.spec_total(),
    {
        self.total
    }

    /// Crate-internal view of the pairs.
    pub(crate) fn pairs(&self) -> (r: &Vec<(Expr, EvaluatedTerm)>)
        ensures
            r@ == self.spec_pairs(),
    {
        &self.pairs
    }
}

/// Where the grand total appears relative to the term breakdown.
#[derive(Debug, Clone, Copy, PartialEq, Eq, Structural)]
pub enum TotalPosition {
    Left,
    Right,
    Suppressed,
}

/// What separates rendered terms.
#[derive(Debug, Clone, Copy, PartialEq, Eq, Structural)]
pub enum TermSeparator {
    PlusSign,
    Comma,
}

/// Formatting options for rendered dice-expression results.
///
/// Each option is independent of the others and has one default; the
/// chained methods return a copy with one option changed.
#[derive(Debug, Clone, Copy, PartialEq, Eq, Structural)]
pub struct FormatOptions {
    pub ignore_sign: bool,
    pub total_position: TotalPosition,
    pub summarize_terms: bool,
    pub term_separators: TermSeparator,
    pub term_parentheses: bool,
    pub term_list_parentheses: bool,
}

impl FormatOptions {
    /// The default options: total suppressed, verbose terms, plus-sign
    /// separators, each dice term parenthesized, the term list not.
    pub open spec fn spec_default() -> FormatOptions {
        FormatOptions {
            ignore_sign: false,
            total_position: TotalPosition::Suppressed,
            summarize_terms: false,
            term_separators: TermSeparator::PlusSign,
            term_parentheses: true,
            term_list_parentheses: false,
        }
    }

    /// Obtain the default options.
    pub fn new() -> (r: FormatOptions)
        ensures
            r == FormatOptions::spec_default(),
    {
        FormatOptions {
            ignore_sign: false,
            total_position: TotalPosition::Suppressed,
            summarize_terms: false,
            term_separators: TermSeparator::PlusSign,
            term_parentheses: true,
            term_list_parentheses: false,
        }
    }

    /// Crate-internal: drop signs from rendered values.
    pub(crate) fn exclude_sign(self) -> (r: FormatOptions)
        ensures
            r == (FormatOptions { ignore_sign: true, ..self }),
    {
        FormatOptions { ignore_sign: true, ..self }
    }

    /// The total appears to the right of the term breakdown.
    pub fn total_right(self) -> (r: FormatOptions)
        ensures
            r == (FormatOptions { total_position: TotalPosition::Right, ..self }),
    {
        FormatOptions { total_position: TotalPosition::Right, ..self }
    }

    /// The total appears to the left of the term breakdown.
    pub fn total_left(self) -> (r: FormatOptions)
        ensures
            r == (FormatOptions { total_position: TotalPosition::Left, ..self }),
    {
        FormatOptions { total_position: TotalPosition::Left, ..self }
    }

    /// The total does not appear. This is the default.
    pub fn no_total(self) -> (r: FormatOptions)
        ensures
            r == (FormatOptions { total_position: TotalPosition::Suppressed, ..self }),
    {
        FormatOptions { total_position: TotalPosition::Suppressed, ..self }
    }

    /// Dice terms show only their total.
    pub fn concise(self) -> (r: FormatOptions)
        ensures
            r == (FormatOptions { summarize_terms: true, ..self }),
    {
        FormatOptions { summarize_terms: true, ..self }
    }

    /// Dice terms show every face value. This is the default.
    pub fn verbose(self) -> (r: FormatOptions)
        ensures
            r == (FormatOptions { summarize_terms: false, ..self }),
    {
        FormatOptions { summarize_terms: false, ..self }
    }

    /// Separate term results with commas.
    pub fn term_commas(self) -> (r: FormatOptions)
        ensures
            r == (FormatOptions { term_separators: TermSeparator::Comma, ..self }),
    {
        FormatOptions { term_separators: TermSeparator::Comma, ..self }
    }

    /// Separate term results with plus signs. This is the default.
    pub fn term_pluses(self) -> (r: FormatOptions)
        ensures
            r == (FormatOptions { term_separators: TermSeparator::PlusSign, ..self }),
    {
        FormatOptions { term_separators: TermSeparator::PlusSign, ..self }
    }

    /// Wrap each dice term result in parentheses. This is the default.
    pub fn dice_parens(self) -> (r: FormatOptions)
        ensures
            r == (FormatOptions { term_parentheses: true, ..self }),
    {
        FormatOptions { term_parentheses: true, ..self }
    }

    /// Don't wrap each dice term result in parentheses.
    pub fn no_term_parens(self) -> (r: FormatOptions)
        ensures
            r == (FormatOptions { term_parentheses: false, ..self }),
    {
        FormatOptions { term_parentheses: false, ..self }
    }

    /// Wrap the entire list of terms in parentheses.
    pub fn term_list_parens(self) -> (r: FormatOptions)
        ensures
            r == (FormatOptions { term_list_parentheses: true, ..self }),
    {
        FormatOptions { term_list_parentheses: true, ..self }
    }

    /// Don't wrap the list of terms in parentheses. This is the default.
    pub fn no_term_list_parens(self) -> (r: FormatOptions)
        ensures
            r == (FormatOptions { term_list_parentheses: false, ..self }),
    {
        FormatOptions { term_list_parentheses: false, ..self }
    }
}

impl Default for FormatOptions {
    /// The same options as [`FormatOptions::new`].
    fn default() -> (r: Self)
        ensures
            r == FormatOptions::spec_default(),
    {
        FormatOptions::new()
    }
}

} // verus!
