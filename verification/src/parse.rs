//! Types and parser for dice expressions.
//!
//! The grammar, over the bytes of the (trimmed) input:
//!
//! ```text
//! expression := sign? term (separator term)*
//! separator  := whitespace* ('+' | '-') whitespace*
//! sign       := '+' | '-'
//! term       := dice | constant
//! dice       := integer? 'd' integer
//! constant   := integer
//! integer    := digit+        (must fit in an `i64`)
//! ```
use vstd::prelude::*;
use vstd::string::StringSliceAdditionalSpecFns;

verus! {

/// Failure of parsing a dice expression.
#[derive(Debug, Copy, Clone, PartialEq, Eq, Structural)]
pub enum ParseError {
    InvalidExpression,
}

/// A die with fewer than one side, or a negative count of dice.
#[derive(Debug, Copy, Clone, PartialEq, Eq, Structural)]
pub struct InvalidDie;

/// The sign under which a term contributes to the sum.
///
/// Counts and sizes are never stored as negative numbers; a sign is kept
/// beside the magnitude and applied only when a term's value enters the sum.
#[derive(Debug, Clone, Copy, PartialEq, Eq, Structural)]
pub enum Sign {
    Positive,
    Negative,
}

impl Sign {
    /// The opposite sign.
    pub open spec fn spec_flip(self) -> Sign {
        match self {
            Sign::Positive => Sign::Negative,
            Sign::Negative => Sign::Positive,
        }
    }

    /// `v` negated when the sign is negative, unchanged otherwise.
    pub open spec fn spec_apply(self, v: int) -> int {
        match self {
            Sign::Positive => v,
            Sign::Negative => -v,
        }
    }

    /// The opposite sign.
    pub fn flip(self) -> (r: Sign)
        ensures
            r == self.spec_flip(),
    {
        match self {
            Sign::Positive => Sign::Negative,
            Sign::Negative => Sign::Positive,
        }
    }
}

/// A group of `count` dice, each with `sides` faces.
///
/// The fields are private: a `DiceTerm` can only be constructed through
/// [`DiceTerm::new`], which rejects a die with fewer than one side and a
/// negative count of dice, so every value of this type is well formed.
#[derive(Debug, Copy, Clone, PartialEq, Eq, Structural)]
pub struct DiceTerm {
    number: i64,
    size: i64,
}

impl DiceTerm {
    /// Number of dice in the group.
    pub closed spec fn spec_count(self) -> int {
        self.number as int
    }

    /// Number of faces on each die.
    pub closed spec fn spec_sides(self) -> int {
        self.size as int
    }

    /// The construction invariant: a non-negative count of dice with at
    /// least one side each.
    pub open spec fn wf(self) -> bool {
        0 <= self.spec_count() <= i64::MAX && 1 <= self.spec_sides() <= i64::MAX
    }

    /// Construction fails with [`InvalidDie`] exactly when `size < 1` or
    /// `number < 0`: a zero- or negative-sided die is never clamped into
    /// range.
    pub fn new(number: i64, size: i64) -> (r: Result<DiceTerm, InvalidDie>)
        ensures
            match r {
                Ok(d) => number >= 0 && size >= 1 && d.spec_count() == number && d.spec_sides()
                    == size,
                Err(_) => number < 0 || size < 1,
            },
    {
        if size < 1 || number < 0 {
            Err(InvalidDie)
        } else {
            Ok(DiceTerm { number, size })
        }
    }

    /// Crate-internal construction from values already known to be valid.
    pub(crate) fn from_parts(number: i64, size: i64) -> (r: DiceTerm)
        requires
            number >= 0,
            size >= 1,
        ensures
            r.spec_count() == number,
            r.spec_sides() == size,
            r == dice_term_model(number as int, size as int),
    {
        DiceTerm { number, size }
    }

    /// Crate-internal: the stored count, whatever it is.
    pub(crate) fn count_raw(&self) -> (r: i64)
        ensures
            r == self.spec_count(),
    {
        self.number
    }

    /// Crate-internal: the stored size, whatever it is.
    pub(crate) fn size_raw(&self) -> (r: i64)
        ensures
            r == self.spec_sides(),
    {
        self.size
    }

    /// Number of dice in the group.
    pub fn count(&self) -> (r: u64)
        requires
            self.wf(),
        ensures
            r == self.spec_count(),
    {
        self.number as u64
    }

    /// Number of faces on each die.
    pub fn sides(&self) -> (r: u64)
        requires
            self.wf(),
        ensures
            r == self.spec_sides(),
    {
        self.size as u64
    }
}

/// One summand of an expression: a group of dice, or a constant.
#[derive(Debug, Copy, Clone, PartialEq, Eq, Structural)]
pub enum Term {
    Dice(DiceTerm),
    Constant(i64),
}

impl Term {
    /// Validity: dice well formed, constants non-negative.
    pub open spec fn wf(self) -> bool {
        match self {
            Term::Dice(d) => d.wf(),
            Term::Constant(c) => 0 <= c,
        }
    }
}

/// A signed term: one summand of an expression together with the sign
/// under which it enters the sum.
#[derive(Debug, Copy, Clone, PartialEq, Eq, Structural)]
pub struct Expr {
    pub term: Term,
    pub sign: Sign,
}

impl Expr {
    /// Validity of the underlying term.
    pub open spec fn wf(self) -> bool {
        self.term.wf()
    }

    /// Least value this signed term can contribute to the sum.
    pub open spec fn spec_min(self) -> int {
        match self.term {
            Term::Dice(d) => match self.sign {
                Sign::Positive => d.spec_count(),
                Sign::Negative => -(d.spec_count() * d.spec_sides()),
            },
            Term::Constant(c) => self.sign.spec_apply(c as int),
        }
    }

    /// Greatest value this signed term can contribute to the sum.
    pub open spec fn spec_max(self) -> int {
        match self.term {
            Term::Dice(d) => match self.sign {
                Sign::Positive => d.spec_count() * d.spec_sides(),
                Sign::Negative => -d.spec_count(),
            },
            Term::Constant(c) => self.sign.spec_apply(c as int),
        }
    }
}

/// Validity of every signed term in a sequence.
pub open spec fn exprs_wf(exprs: Seq<Expr>) -> bool {
    forall|i: int| 0 <= i < exprs.len() ==> (#[trigger] exprs[i]).wf()
}

/// Sum of the least contributions of the first `n` terms.
pub open spec fn sum_min(exprs: Seq<Expr>, n: int) -> int
    decreases n,
{
    if n <= 0 {
        0
    } else {
        sum_min(exprs, n - 1) + exprs[n - 1].spec_min()
    }
}

/// Sum of the greatest contributions of the first `n` terms.
pub open spec fn sum_max(exprs: Seq<Expr>, n: int) -> int
    decreases n,
{
    if n <= 0 {
        0
    } else {
        sum_max(exprs, n - 1) + exprs[n - 1].spec_max()
    }
}

/// An evaluation of these terms can never fail: every group's unsigned
/// roll fits in an `i64`, and every running total along the way stays in
/// range whatever the dice show.
pub open spec fn within_bounds(exprs: Seq<Expr>) -> bool {
    &&& forall|i: int|
        0 <= i < exprs.len() ==> (match (#[trigger] exprs[i]).term {
            Term::Dice(d) => d.spec_count() * d.spec_sides() <= i64::MAX,
            Term::Constant(_) => true,
        })
    &&& forall|n: int|
        0 <= n <= exprs.len() ==> i64::MIN <= #[trigger] sum_min(exprs, n) && sum_max(exprs, n)
            <= i64::MAX
}

/// An ordered, signed list of terms forming one rollable unit.
///
/// Immutable once parsed or converted from tuples; it may be evaluated
/// any number of times, each evaluation drawing fresh randomness.
#[derive(Debug, Clone)]
pub struct Expression {
    exprs: Vec<Expr>,
}

impl Expression {
    /// The ordered signed terms.
    pub closed spec fn view(&self) -> Seq<Expr> {
        self.exprs@
    }

    /// Validity of every term.
    pub open spec fn wf(&self) -> bool {
        exprs_wf(self@)
    }

    /// Crate-internal constructor.
    pub(crate) fn from_exprs(exprs: Vec<Expr>) -> (r: Expression)
        ensures
            r@ == exprs@,
    {
        Expression { exprs }
    }

    /// The terms in order, without their signs.
    pub fn terms(&self) -> (r: Vec<Term>)
        ensures
            r@.len() == self@.len(),
            forall|i: int| 0 <= i < r@.len() ==> r@[i] == self@[i].term,
    {
        let mut out: Vec<Term> = Vec::new();
        let mut i: usize = 0;
        while i < self.exprs.len()
            invariant
                i <= self.exprs.len(),
                out@.len() == i,
                forall|j: int| 0 <= j < i ==> out@[j] == self@[j].term,
            decreases self.exprs.len() - i,
        {
            out.push(self.exprs[i].term);
            i += 1;
        }
        out
    }

    /// The signed terms in order.
    pub(crate) fn exprs(&self) -> (r: &Vec<Expr>)
        ensures
            r@ == self@,
    {
        &self.exprs
    }

    /// Evaluate this expression against a caller-supplied source of
    /// randomness.
    ///
    /// A success pairs each term, in order, with a faithful outcome and
    /// totals their values; its total lies between the least and
    /// greatest sums the terms allow. A failure is always an overflow
    /// and can only happen when those sums leave `i64`.
    pub fn roll_with<R: crate::rng::RollSource>(&self, rng: &mut R) -> (r: Result<
        crate::ExpressionResult,
        crate::Error,
    >)
        requires
            self.wf(),
        ensures
            match r {
                Ok(res) => {
                    &&& res.spec_pairs().len() == self@.len()
                    &&& forall|i: int|
                        0 <= i < self@.len() ==> (#[trigger] res.spec_pairs()[i]).0 == self@[i]
                    &&& res.wf()
                    &&& sum_min(self@, self@.len() as int) <= res.spec_total() <= sum_max(
                        self@,
                        self@.len() as int,
                    )
                },
                Err(e) => e.is_overflow() && !within_bounds(self@) && crate::explains_overflow(
                    self@,
                    e,
                ),
            },
    {
        crate::roll_expr_iter_with(rng, &self.exprs)
    }

    /// Evaluate this expression against the thread-local generator.
    pub fn roll(&self) -> (r: Result<crate::ExpressionResult, crate::Error>)
        requires
            self.wf(),
        ensures
            match r {
                Ok(res) => {
                    &&& res.spec_pairs().len() == self@.len()
                    &&& forall|i: int|
                        0 <= i < self@.len() ==> (#[trigger] res.spec_pairs()[i]).0 == self@[i]
                    &&& res.wf()
                    &&& sum_min(self@, self@.len() as int) <= res.spec_total() <= sum_max(
                        self@,
                        self@.len() as int,
                    )
                },
                Err(e) => e.is_overflow() && !within_bounds(self@) && crate::explains_overflow(
                    self@,
                    e,
                ),
            },
    {
        let mut source = crate::rng::ThreadSource::new();
        self.roll_with(&mut source)
    }

    /// Parse an expression from the start of `input`, without trimming
    /// and without demanding that all of it is consumed.
    ///
    /// `Err` means no expression stands there at all; `Ok` carries the
    /// number of input bytes consumed, and inside it either the
    /// expression or [`InvalidDie`] if a matched term was a zero-sided
    /// die.
    pub fn parse(input: &str) -> (r: Result<(Result<Expression, InvalidDie>, usize), ParseError>)
        ensures
            match spec_dice(input.spec_bytes(), 0) {
                DiceParse::Fail => r matches Err(pe) && pe == ParseError::InvalidExpression,
                DiceParse::Bad(end) => r matches Ok((inner, e)) && inner matches Err(_) && e == end,
                DiceParse::Parsed(exprs, end) => r matches Ok((inner, e)) && inner matches Ok(ex)
                    && ex@ == exprs && ex.wf() && e == end,
            },
    {
        let bytes = input.as_bytes();
        dice(bytes, 0)
    }
}

// ---------------------------------------------------------------------
// The grammar, as specification functions over the bytes of the input.
// ---------------------------------------------------------------------

/// An ASCII decimal digit.
pub open spec fn is_digit(b: u8) -> bool {
    48 <= b <= 57
}

/// The whitespace the grammar permits around `+` and `-`: space or tab.
pub open spec fn is_sep_ws(b: u8) -> bool {
    b == 32 || b == 9
}

/// The ASCII whitespace stripped from both ends of the input before
/// parsing.
pub open spec fn is_trim_ws(b: u8) -> bool {
    b == 32 || b == 9 || b == 10 || b == 13 || b == 11 || b == 12
}

/// First position at or after `i` that does not hold separator
/// whitespace.
pub open spec fn ws_end(s: Seq<u8>, i: int) -> int
    decreases s.len() - i when 0 <= i <= s.len()
{
    if i < s.len() && is_sep_ws(s[i]) {
        ws_end(s, i + 1)
    } else {
        i
    }
}

/// First position at or after `i` that does not hold a digit.
pub open spec fn digit_end(s: Seq<u8>, i: int) -> int
    decreases s.len() - i when 0 <= i <= s.len()
{
    if i < s.len() && is_digit(s[i]) {
        digit_end(s, i + 1)
    } else {
        i
    }
}

/// Numeric value of the digits `s[i..j)`.
pub open spec fn digits_val(s: Seq<u8>, i: int, j: int) -> int
    decreases j - i,
{
    if j <= i {
        0
    } else {
        digits_val(s, i, j - 1) * 10 + (s[j - 1] - 48)
    }
}

/// Outcome of reading an integer literal: no digits at all, a literal
/// too large for `i64` (which aborts the whole parse), or a value and
/// the position after its digits.
pub enum IntStep {
    Fail,
    TooLarge,
    Val(i64, int),
}

/// Read an integer literal at `i`: the longest run of digits, whose
/// value must fit in an `i64`.
pub open spec fn spec_integer(s: Seq<u8>, i: int) -> IntStep {
    let e = digit_end(s, i);
    if e == i {
        IntStep::Fail
    } else if digits_val(s, i, e) > i64::MAX {
        IntStep::TooLarge
    } else {
        IntStep::Val(digits_val(s, i, e) as i64, e)
    }
}

/// Read a `+` or `-` at `i`.
pub open spec fn spec_opsign(s: Seq<u8>, i: int) -> Option<(Sign, int)> {
    if i < s.len() && s[i] == 43 {
        Some((Sign::Positive, i + 1))
    } else if i < s.len() && s[i] == 45 {
        Some((Sign::Negative, i + 1))
    } else {
        None
    }
}

/// Read a separator at `i`: optional whitespace, a `+` or `-`, optional
/// whitespace.
pub open spec fn spec_separator(s: Seq<u8>, i: int) -> Option<(Sign, int)> {
    let a = ws_end(s, i);
    match spec_opsign(s, a) {
        None => None,
        Some((sg, b)) => Some((sg, ws_end(s, b))),
    }
}

/// Outcome of reading a dice term: no match, an aborting oversized
/// literal, a zero-sided die (a match carrying [`InvalidDie`]), or the
/// term and the position after it.
pub enum DieStep {
    Fail,
    TooLarge,
    Bad(int),
    Die(DiceTerm, int),
}

/// The model of a dice term the parser would build.
pub closed spec fn dice_term_model(number: int, size: int) -> DiceTerm {
    DiceTerm { number: number as i64, size: size as i64 }
}

/// Read a dice term at `i`: an optional count (default 1), the letter
/// `d`, and a size, which must not be zero.
pub open spec fn spec_die(s: Seq<u8>, i: int) -> DieStep {
    match spec_integer(s, i) {
        IntStep::TooLarge => DieStep::TooLarge,
        IntStep::Fail => spec_die_after_count(s, i, 1),
        IntStep::Val(n, j) => spec_die_after_count(s, j, n as int),
    }
}

/// The rest of a dice term once its count is known: `d` and a size.
pub open spec fn spec_die_after_count(s: Seq<u8>, j: int, number: int) -> DieStep {
    if j < s.len() && s[j] == 100 {
        match spec_integer(s, j + 1) {
            IntStep::Fail => DieStep::Fail,
            IntStep::TooLarge => DieStep::TooLarge,
            IntStep::Val(sz, k) => if sz != 0 {
                DieStep::Die(dice_term_model(number, sz as int), k)
            } else {
                DieStep::Bad(k)
            },
        }
    } else {
        DieStep::Fail
    }
}

/// Outcome of reading one term: as [`DieStep`], over [`Term`].
pub enum TermStep {
    Fail,
    TooLarge,
    Bad(int),
    Tm(Term, int),
}

/// Read one term at `i`: a dice term, or else a constant.
pub open spec fn spec_term(s: Seq<u8>, i: int) -> TermStep {
    match spec_die(s, i) {
        DieStep::Die(d, j) => TermStep::Tm(Term::Dice(d), j),
        DieStep::Bad(j) => TermStep::Bad(j),
        DieStep::TooLarge => TermStep::TooLarge,
        DieStep::Fail => match spec_integer(s, i) {
            IntStep::Val(v, j) => TermStep::Tm(Term::Constant(v), j),
            IntStep::TooLarge => TermStep::TooLarge,
            IntStep::Fail => TermStep::Fail,
        },
    }
}

/// A matched term slot: a good term, or a zero-sided die found where a
/// term was expected.
#[derive(Debug, Clone, Copy)]
pub enum TermSlot {
    Good(Term),
    BadDie,
}

/// Outcome of the repeated `(separator term)*` tail: an abort on an
/// oversized literal, or the matched slots with their signs and the
/// position after the last match.
pub enum TailStep {
    Abort,
    Done(Seq<(Sign, TermSlot)>, int),
}

/// Read the `(separator term)*` tail at `i`. The repetition stops
/// before a separator that is not followed by a term; a zero-sided die
/// is collected as a slot and the repetition continues after it.
pub open spec fn spec_tail(s: Seq<u8>, i: int) -> TailStep
    decreases s.len() - i when 0 <= i <= s.len() via spec_tail_decreases
{
    match spec_separator(s, i) {
        None => TailStep::Done(Seq::empty(), i),
        Some((sg, j)) => match spec_term(s, j) {
            TermStep::Fail => TailStep::Done(Seq::empty(), i),
            TermStep::TooLarge => TailStep::Abort,
            TermStep::Bad(k) => match spec_tail(s, k) {
                TailStep::Abort => TailStep::Abort,
                TailStep::Done(rest, end) => TailStep::Done(
                    seq![(sg, TermSlot::BadDie)] + rest,
                    end,
                ),
            },
            TermStep::Tm(t, k) => match spec_tail(s, k) {
                TailStep::Abort => TailStep::Abort,
                TailStep::Done(rest, end) => TailStep::Done(
                    seq![(sg, TermSlot::Good(t))] + rest,
                    end,
                ),
            },
        },
    }
}

#[via_fn]
proof fn spec_tail_decreases(s: Seq<u8>, i: int) {
    lemma_separator_range(s, i);
    match spec_separator(s, i) {
        None => {},
        Some((sg, j)) => {
            lemma_term_range(s, j);
        },
    }
}

/// Fold matched slots into signed terms; the first zero-sided die
/// poisons the whole list.
pub open spec fn slots_to_exprs(slots: Seq<(Sign, TermSlot)>) -> Option<Seq<Expr>>
    decreases slots.len(),
{
    if slots.len() == 0 {
        Some(Seq::empty())
    } else {
        match slots[0].1 {
            TermSlot::BadDie => None,
            TermSlot::Good(t) => match slots_to_exprs(slots.drop_first()) {
                None => None,
                Some(rest) => Some(seq![Expr { term: t, sign: slots[0].0 }] + rest),
            },
        }
    }
}

/// Outcome of reading a whole expression: no parse, a parse containing
/// a zero-sided die, or the signed terms and the position after them.
pub enum DiceParse {
    Fail,
    Bad(int),
    Parsed(Seq<Expr>, int),
}

/// Read a whole expression at `i`: an optional leading separator as the
/// first term's sign, a term, and the `(separator term)*` tail.
pub open spec fn spec_dice(s: Seq<u8>, i: int) -> DiceParse {
    let sg0 = match spec_separator(s, i) {
        Some((sg, _)) => sg,
        None => Sign::Positive,
    };
    let start = match spec_separator(s, i) {
        Some((_, j)) => j,
        None => i,
    };
    match spec_term(s, start) {
        TermStep::Fail => DiceParse::Fail,
        TermStep::TooLarge => DiceParse::Fail,
        TermStep::Bad(k) => match spec_tail(s, k) {
            TailStep::Abort => DiceParse::Fail,
            TailStep::Done(rest, end) => DiceParse::Bad(end),
        },
        TermStep::Tm(t, k) => match spec_tail(s, k) {
            TailStep::Abort => DiceParse::Fail,
            TailStep::Done(rest, end) => match slots_to_exprs(
                seq![(sg0, TermSlot::Good(t))] + rest,
            ) {
                None => DiceParse::Bad(end),
                Some(exprs) => DiceParse::Parsed(exprs, end),
            },
        },
    }
}

/// First position that does not hold trimmable whitespace.
pub open spec fn trim_start(s: Seq<u8>) -> int
    decreases s.len(),
{
    if s.len() > 0 && is_trim_ws(s[0]) {
        1 + trim_start(s.drop_first())
    } else {
        0
    }
}

/// Position after the last byte that is not trimmable whitespace.
pub open spec fn trim_end(s: Seq<u8>) -> int
    decreases s.len(),
{
    if s.len() > 0 && is_trim_ws(s.last()) {
        trim_end(s.drop_last())
    } else {
        s.len() as int
    }
}

/// The input with trimmable whitespace stripped from both ends.
pub open spec fn spec_trim(s: Seq<u8>) -> Seq<u8> {
    if trim_start(s) <= trim_end(s) {
        s.subrange(trim_start(s), trim_end(s))
    } else {
        Seq::empty()
    }
}

/// Parse a whole input: trim it, read an expression, and reject any
/// unconsumed trailing text. `None` stands for every rejection.
pub open spec fn spec_wrap_dice(s: Seq<u8>) -> Option<Seq<Expr>> {
    let t = spec_trim(s);
    match spec_dice(t, 0) {
        DiceParse::Parsed(exprs, end) => if end == t.len() {
            Some(exprs)
        } else {
            None
        },
        _ => None,
    }
}

// ---------------------------------------------------------------------
// Facts about the grammar specification.
// ---------------------------------------------------------------------

/// Where a whitespace run ends: within the input, never before `i`.
pub proof fn lemma_ws_end(s: Seq<u8>, i: int)
    requires
        0 <= i <= s.len(),
    ensures
        i <= ws_end(s, i) <= s.len(),
        forall|k: int| i <= k < ws_end(s, i) ==> is_sep_ws(#[trigger] s[k]),
        ws_end(s, i) == s.len() || !is_sep_ws(s[ws_end(s, i)]),
    decreases s.len() - i,
{
    if i < s.len() && is_sep_ws(s[i]) {
        lemma_ws_end(s, i + 1);
    }
}

/// Where a digit run ends: within the input, never before `i`.
pub proof fn lemma_digit_end(s: Seq<u8>, i: int)
    requires
        0 <= i <= s.len(),
    ensures
        i <= digit_end(s, i) <= s.len(),
        forall|k: int| i <= k < digit_end(s, i) ==> is_digit(#[trigger] s[k]),
        digit_end(s, i) == s.len() || !is_digit(s[digit_end(s, i)]),
    decreases s.len() - i,
{
    if i < s.len() && is_digit(s[i]) {
        lemma_digit_end(s, i + 1);
    }
}

/// The value of a digit run is non-negative and grows with its length.
pub proof fn lemma_digits_val_bounds(s: Seq<u8>, i: int, j: int, j2: int)
    requires
        i <= j <= j2,
        forall|k: int| i <= k < j2 ==> 0 <= #[trigger] s[k] - 48,
    ensures
        0 <= digits_val(s, i, j) <= digits_val(s, i, j2),
    decreases j2 - i,
{
    if j2 <= i {
    } else {
        if j <= j2 - 1 {
            lemma_digits_val_bounds(s, i, j, j2 - 1);
        } else {
            lemma_digits_val_bounds(s, i, j2 - 1, j2 - 1);
        }
        assert(0 <= s[j2 - 1] - 48);
        assert(digits_val(s, i, j2 - 1) * 10 >= digits_val(s, i, j2 - 1)) by (nonlinear_arith)
            requires
                digits_val(s, i, j2 - 1) >= 0,
        ;
    }
}

/// What a successful integer read guarantees: progress, and a
/// non-negative value.
pub proof fn lemma_integer_range(s: Seq<u8>, i: int)
    requires
        0 <= i <= s.len(),
    ensures
        match spec_integer(s, i) {
            IntStep::Val(v, e) => i < e <= s.len() && 0 <= v,
            _ => true,
        },
{
    lemma_digit_end(s, i);
    let e = digit_end(s, i);
    if e != i && digits_val(s, i, e) <= i64::MAX {
        lemma_digits_val_bounds(s, i, e, e);
    }
}

/// What a matched separator guarantees: progress.
pub proof fn lemma_separator_range(s: Seq<u8>, i: int)
    requires
        0 <= i <= s.len(),
    ensures
        match spec_separator(s, i) {
            Some((sg, j)) => i < j <= s.len(),
            None => true,
        },
{
    lemma_ws_end(s, i);
    let a = ws_end(s, i);
    match spec_opsign(s, a) {
        None => {},
        Some((sg, b)) => {
            lemma_ws_end(s, b);
        },
    }
}

/// What a matched term guarantees: progress, in the good case and in
/// the zero-sided case alike.
pub proof fn lemma_term_range(s: Seq<u8>, i: int)
    requires
        0 <= i <= s.len(),
    ensures
        match spec_term(s, i) {
            TermStep::Tm(t, j) => i < j <= s.len(),
            TermStep::Bad(j) => i < j <= s.len(),
            _ => true,
        },
{
    lemma_integer_range(s, i);
    match spec_integer(s, i) {
        IntStep::TooLarge => {},
        IntStep::Fail => {
            lemma_die_after_count_range(s, i, 1);
        },
        IntStep::Val(n, j) => {
            lemma_die_after_count_range(s, j, n as int);
        },
    }
}

/// What the rest of a dice term guarantees: progress past `d`.
pub proof fn lemma_die_after_count_range(s: Seq<u8>, j: int, number: int)
    requires
        0 <= j <= s.len(),
    ensures
        match spec_die_after_count(s, j, number) {
            DieStep::Die(d, k) => j < k <= s.len(),
            DieStep::Bad(k) => j < k <= s.len(),
            _ => true,
        },
{
    if j < s.len() && s[j] == 100 {
        lemma_integer_range(s, j + 1);
    }
}

/// A good term the grammar yields is well formed: its count and size
/// come from non-negative literals and a zero size was turned away.
pub proof fn lemma_term_wf(s: Seq<u8>, i: int)
    requires
        0 <= i <= s.len(),
    ensures
        spec_term(s, i) matches TermStep::Tm(t, j) ==> t.wf(),
{
    lemma_integer_range(s, i);
    match spec_integer(s, i) {
        IntStep::TooLarge => {},
        IntStep::Fail => {
            lemma_die_after_count_wf(s, i, 1);
        },
        IntStep::Val(n, j) => {
            lemma_die_after_count_wf(s, j, n as int);
        },
    }
}

/// The dice term the grammar yields after a valid count is well formed.
proof fn lemma_die_after_count_wf(s: Seq<u8>, j: int, number: int)
    requires
        0 <= j <= s.len(),
        0 <= number <= i64::MAX,
    ensures
        spec_die_after_count(s, j, number) matches DieStep::Die(d, k) ==> d.wf(),
{
    if j < s.len() && s[j] == 100 {
        lemma_integer_range(s, j + 1);
    }
}

/// Every slot the tail yields holds a well-formed term or a zero-sided
/// die.
pub proof fn lemma_tail_wf(s: Seq<u8>, i: int)
    requires
        0 <= i <= s.len(),
    ensures
        spec_tail(s, i) matches TailStep::Done(slots, end) ==> forall|k: int|
            0 <= k < slots.len() ==> ((#[trigger] slots[k]).1 matches TermSlot::Good(t) ==> t.wf()),
    decreases s.len() - i,
{
    lemma_separator_range(s, i);
    match spec_separator(s, i) {
        None => {},
        Some((sg, j)) => {
            lemma_term_range(s, j);
            lemma_term_wf(s, j);
            match spec_term(s, j) {
                TermStep::Bad(k) => {
                    lemma_tail_wf(s, k);
                },
                TermStep::Tm(t, k) => {
                    lemma_tail_wf(s, k);
                },
                _ => {},
            }
        },
    }
}

/// What folding slots yields: all good slots, in order, as signed terms.
pub proof fn lemma_slots_to_exprs(slots: Seq<(Sign, TermSlot)>)
    ensures
        (slots_to_exprs(slots) matches Some(exprs)) <==> (forall|i: int|
            0 <= i < slots.len() ==> (#[trigger] slots[i]).1 matches TermSlot::Good(_)),
        slots_to_exprs(slots) matches Some(exprs) ==> exprs.len() == slots.len() && forall|i: int|
            0 <= i < slots.len() ==> #[trigger] exprs[i] == (Expr {
                term: slots[i].1->Good_0,
                sign: slots[i].0,
            }),
    decreases slots.len(),
{
    if slots.len() == 0 {
    } else {
        let tail = slots.drop_first();
        lemma_slots_to_exprs(tail);
        assert(forall|i: int| 0 <= i < tail.len() ==> #[trigger] tail[i] == slots[i + 1]);
        match slots[0].1 {
            TermSlot::BadDie => {
                assert(!((slots[0]).1 matches TermSlot::Good(_)));
            },
            TermSlot::Good(t) => {
                if forall|i: int|
                    0 <= i < slots.len() ==> (#[trigger] slots[i]).1 matches TermSlot::Good(_) {
                    assert(forall|i: int|
                        0 <= i < tail.len() ==> (#[trigger] tail[i]).1 matches TermSlot::Good(_));
                }
                if forall|i: int|
                    0 <= i < tail.len() ==> (#[trigger] tail[i]).1 matches TermSlot::Good(_) {
                    assert(forall|i: int|
                        0 <= i < slots.len() ==> (#[trigger] slots[i]).1 matches TermSlot::Good(_))
                        by {
                        assert(forall|i: int| 1 <= i < slots.len() ==> slots[i] == tail[i - 1]);
                    }
                }
            },
        }
    }
}

/// A parsed expression is non-empty and every term in it is well
/// formed.
pub proof fn lemma_dice_wf(s: Seq<u8>, i: int)
    requires
        0 <= i <= s.len(),
    ensures
        spec_dice(s, i) matches DiceParse::Parsed(exprs, end) ==> exprs_wf(exprs) && exprs.len()
            >= 1,
{
    lemma_separator_range(s, i);
    let start = match spec_separator(s, i) {
        Some((_, j)) => j,
        None => i,
    };
    let sg0 = match spec_separator(s, i) {
        Some((sg, _)) => sg,
        None => Sign::Positive,
    };
    lemma_term_range(s, start);
    lemma_term_wf(s, start);
    match spec_term(s, start) {
        TermStep::Tm(t, k) => {
            lemma_tail_wf(s, k);
            match spec_tail(s, k) {
                TailStep::Done(rest, end) => {
                    let slots = seq![(sg0, TermSlot::Good(t))] + rest;
                    lemma_slots_to_exprs(slots);
                    assert(forall|j: int| 0 <= j < rest.len() ==> rest[j] == slots[j + 1]);
                },
                TailStep::Abort => {},
            }
        },
        _ => {},
    }
}

// ---------------------------------------------------------------------
// The parser, verified against the grammar specification.
// ---------------------------------------------------------------------

/// Whether a character is a decimal digit.
pub fn is_dec_digit(c: char) -> (r: bool)
    ensures
        r == (48 <= c as u32 <= 57),
{
    c >= '0' && c <= '9'
}

/// Skip separator whitespace from `i`.
fn skip_ws(s: &[u8], i: usize) -> (r: usize)
    requires
        i <= s@.len(),
    ensures
        r == ws_end(s@, i as int),
        i <= r <= s@.len(),
{
    let mut r = i;
    while r < s.len() && (s[r] == 32 || s[r] == 9)
        invariant
            i <= r <= s@.len(),
            ws_end(s@, i as int) == ws_end(s@, r as int),
        decreases s@.len() - r,
    {
        r += 1;
    }
    r
}

/// Skip digits from `i`.
fn skip_digits(s: &[u8], i: usize) -> (r: usize)
    requires
        i <= s@.len(),
    ensures
        r == digit_end(s@, i as int),
        i <= r <= s@.len(),
{
    let mut r = i;
    while r < s.len() && 48 <= s[r] && s[r] <= 57
        invariant
            i <= r <= s@.len(),
            digit_end(s@, i as int) == digit_end(s@, r as int),
        decreases s@.len() - r,
    {
        r += 1;
    }
    r
}

/// Outcome of reading an integer literal.
#[derive(Debug, Clone, Copy, PartialEq, Eq, Structural)]
pub enum IntegerLex {
    /// No digit stands at the given position.
    NoDigits,
    /// The literal's value does not fit in an `i64`.
    TooLarge,
    /// The value and the position just past the literal's digits.
    Value(i64, usize),
}

/// Read an integer literal: the longest run of digits, whose value must
/// fit in an `i64`.
///
/// Signs are not part of a literal: the grammar keeps them separate
/// from the magnitudes they apply to.
pub fn integer(s: &[u8], from: usize) -> (r: IntegerLex)
    requires
        from <= s@.len(),
    ensures
        match spec_integer(s@, from as int) {
            IntStep::Fail => r == IntegerLex::NoDigits,
            IntStep::TooLarge => r == IntegerLex::TooLarge,
            IntStep::Val(v, e) => r matches IntegerLex::Value(v2, e2) && v2 == v && e2 == e,
        },
{
    let end = skip_digits(s, from);
    if end == from {
        return IntegerLex::NoDigits;
    }
    proof {
        lemma_digit_end(s@, from as int);
    }
    let mut v: i64 = 0;
    let mut k = from;
    while k < end
        invariant
            from <= k <= end == digit_end(s@, from as int) <= s@.len(),
            forall|t: int| from <= t < end ==> is_digit(#[trigger] s@[t]),
            0 <= v == digits_val(s@, from as int, k as int),
        decreases end - k,
    {
        let d = s[k] - 48;
        proof {
            lemma_digits_val_bounds(s@, from as int, k as int, k as int + 1);
        }
        if v > (i64::MAX - d as i64) / 10 {
            proof {
                assert(v * 10 + d > i64::MAX) by (nonlinear_arith)
                    requires
                        v > (i64::MAX - d) / 10,
                        0 <= d <= 9,
                        v >= 0,
                ;
                lemma_digits_val_bounds(s@, from as int, k as int + 1, end as int);
            }
            return IntegerLex::TooLarge;
        }
        proof {
            assert(v * 10 + d <= i64::MAX) by (nonlinear_arith)
                requires
                    v <= (i64::MAX - d) / 10,
                    0 <= d <= 9,
                    v >= 0,
            ;
        }
        v = v * 10 + d as i64;
        k += 1;
    }
    IntegerLex::Value(v, end)
}

/// Read a `+` or `-` sign.
pub fn sign(s: &[u8], from: usize) -> (r: Option<(Sign, usize)>)
    requires
        from <= s@.len(),
    ensures
        match spec_opsign(s@, from as int) {
            None => r is None,
            Some((sg, j)) => r matches Some(p) && p.0 == sg && p.1 == j,
        },
{
    if from < s.len() && s[from] == 43 {
        Some((Sign::Positive, from + 1))
    } else if from < s.len() && s[from] == 45 {
        Some((Sign::Negative, from + 1))
    } else {
        None
    }
}

/// Read one separator whitespace byte: a space or a tab.
pub fn whitespace(s: &[u8], from: usize) -> (r: Option<usize>)
    requires
        from <= s@.len(),
    ensures
        match r {
            Some(j) => from < s@.len() && is_sep_ws(s@[from as int]) && j == from + 1,
            None => from == s@.len() || !is_sep_ws(s@[from as int]),
        },
{
    if from < s.len() && (s[from] == 32 || s[from] == 9) {
        Some(from + 1)
    } else {
        None
    }
}

/// Read a separator: optional whitespace, a sign, optional whitespace.
fn separator(s: &[u8], from: usize) -> (r: Option<(Sign, usize)>)
    requires
        from <= s@.len(),
    ensures
        match spec_separator(s@, from as int) {
            None => r is None,
            Some((sg, j)) => r matches Some(p) && p.0 == sg && p.1 == j,
        },
        r matches Some(p) ==> from < p.1 <= s@.len(),
{
    proof {
        lemma_separator_range(s@, from as int);
    }
    let a = skip_ws(s, from);
    match sign(s, a) {
        None => None,
        Some((sg, b)) => {
            let c = skip_ws(s, b);
            Some((sg, c))
        },
    }
}

/// Outcome of reading a dice term.
enum DieLex {
    Fail,
    TooLarge,
    Bad(usize),
    Die(DiceTerm, usize),
}

/// Read the rest of a dice term once its count is known: `d` and a
/// size, which must not be zero.
fn die_after(s: &[u8], j: usize, number: i64) -> (r: DieLex)
    requires
        j <= s@.len(),
        number >= 0,
    ensures
        match spec_die_after_count(s@, j as int, number as int) {
            DieStep::Fail => r matches DieLex::Fail,
            DieStep::TooLarge => r matches DieLex::TooLarge,
            DieStep::Bad(k) => r matches DieLex::Bad(e) && e == k,
            DieStep::Die(d, k) => r matches DieLex::Die(dt, e) && dt == d && e == k,
        },
{
    if j < s.len() && s[j] == 100 {
        proof {
            lemma_integer_range(s@, j as int + 1);
        }
        match integer(s, j + 1) {
            IntegerLex::NoDigits => DieLex::Fail,
            IntegerLex::TooLarge => DieLex::TooLarge,
            IntegerLex::Value(sz, k) => {
                if sz != 0 {
                    DieLex::Die(DiceTerm::from_parts(number, sz), k)
                } else {
                    DieLex::Bad(k)
                }
            },
        }
    } else {
        DieLex::Fail
    }
}

/// Read a dice term: an optional count (default 1), `d`, and a size.
fn die(s: &[u8], from: usize) -> (r: DieLex)
    requires
        from <= s@.len(),
    ensures
        match spec_die(s@, from as int) {
            DieStep::Fail => r matches DieLex::Fail,
            DieStep::TooLarge => r matches DieLex::TooLarge,
            DieStep::Bad(k) => r matches DieLex::Bad(e) && e == k,
            DieStep::Die(d, k) => r matches DieLex::Die(dt, e) && dt == d && e == k,
        },
{
    proof {
        lemma_integer_range(s@, from as int);
    }
    match integer(s, from) {
        IntegerLex::TooLarge => DieLex::TooLarge,
        IntegerLex::NoDigits => die_after(s, from, 1),
        IntegerLex::Value(n, j) => die_after(s, j, n),
    }
}

/// Outcome of reading one term.
enum TermLex {
    Fail,
    TooLarge,
    Bad(usize),
    Tm(Term, usize),
}

/// Read one term: a dice term, or else a constant.
fn term_at(s: &[u8], from: usize) -> (r: TermLex)
    requires
        from <= s@.len(),
    ensures
        match spec_term(s@, from as int) {
            TermStep::Fail => r matches TermLex::Fail,
            TermStep::TooLarge => r matches TermLex::TooLarge,
            TermStep::Bad(j) => r matches TermLex::Bad(e) && e == j,
            TermStep::Tm(t, j) => r matches TermLex::Tm(tm, e) && tm == t && e == j && from < j
                <= s@.len(),
        },
{
    proof {
        lemma_term_range(s@, from as int);
    }
    match die(s, from) {
        DieLex::Die(d, j) => TermLex::Tm(Term::Dice(d), j),
        DieLex::Bad(j) => TermLex::Bad(j),
        DieLex::TooLarge => TermLex::TooLarge,
        DieLex::Fail => match integer(s, from) {
            IntegerLex::Value(v, j) => TermLex::Tm(Term::Constant(v), j),
            IntegerLex::TooLarge => TermLex::TooLarge,
            IntegerLex::NoDigits => TermLex::Fail,
        },
    }
}

/// Read the `(separator term)*` tail: every further matched slot and
/// the position after the last one, or `None` on an oversized literal.
fn tail_at(s: &[u8], from: usize) -> (r: Option<(Vec<(Sign, TermSlot)>, usize)>)
    requires
        from <= s@.len(),
    ensures
        match spec_tail(s@, from as int) {
            TailStep::Abort => r is None,
            TailStep::Done(slots, end) => r matches Some((v, e)) && v@ == slots && e == end,
        },
{
    let mut acc: Vec<(Sign, TermSlot)> = Vec::new();
    let mut cur = from;
    proof {
        match spec_tail(s@, from as int) {
            TailStep::Abort => {},
            TailStep::Done(rest, end) => {
                assert(Seq::<(Sign, TermSlot)>::empty() + rest =~= rest);
            },
        }
    }
    loop
        invariant
            from <= cur <= s@.len(),
            match spec_tail(s@, cur as int) {
                TailStep::Abort => spec_tail(s@, from as int) matches TailStep::Abort,
                TailStep::Done(rest, end) => spec_tail(s@, from as int) == TailStep::Done(
                    acc@ + rest,
                    end,
                ),
            },
        decreases s@.len() - cur,
    {
        proof {
            lemma_separator_range(s@, cur as int);
        }
        match separator(s, cur) {
            None => {
                proof {
                    assert(spec_tail(s@, cur as int) == TailStep::Done(
                        Seq::<(Sign, TermSlot)>::empty(),
                        cur as int,
                    ));
                    assert(acc@ + Seq::<(Sign, TermSlot)>::empty() =~= acc@);
                }
                return Some((acc, cur));
            },
            Some((sg, j)) => {
                proof {
                    lemma_term_range(s@, j as int);
                }
                match term_at(s, j) {
                    TermLex::Fail => {
                        proof {
                            assert(spec_tail(s@, cur as int) == TailStep::Done(
                                Seq::<(Sign, TermSlot)>::empty(),
                                cur as int,
                            ));
                            assert(acc@ + Seq::<(Sign, TermSlot)>::empty() =~= acc@);
                        }
                        return Some((acc, cur));
                    },
                    TermLex::TooLarge => {
                        proof {
                            assert(spec_tail(s@, cur as int) matches TailStep::Abort);
                        }
                        return None;
                    },
                    TermLex::Bad(k) => {
                        proof {
                            if let TailStep::Done(rest2, end2) = spec_tail(s@, k as int) {
                                assert(acc@ + (seq![(sg, TermSlot::BadDie)] + rest2) =~= acc@.push(
                                    (sg, TermSlot::BadDie),
                                ) + rest2);
                            }
                        }
                        acc.push((sg, TermSlot::BadDie));
                        cur = k;
                    },
                    TermLex::Tm(t, k) => {
                        proof {
                            if let TailStep::Done(rest2, end2) = spec_tail(s@, k as int) {
                                assert(acc@ + (seq![(sg, TermSlot::Good(t))] + rest2) =~= acc@.push(
                                    (sg, TermSlot::Good(t)),
                                ) + rest2);
                            }
                        }
                        acc.push((sg, TermSlot::Good(t)));
                        cur = k;
                    },
                }
            },
        }
    }
}

/// Fold matched slots into signed terms; the first zero-sided die
/// poisons the whole list.
fn fold_slots(slots: &Vec<(Sign, TermSlot)>) -> (r: Option<Vec<Expr>>)
    ensures
        match slots_to_exprs(slots@) {
            None => r is None,
            Some(exprs) => r matches Some(v) && v@ == exprs,
        },
{
    proof {
        lemma_slots_to_exprs(slots@);
    }
    let mut out: Vec<Expr> = Vec::new();
    let mut i: usize = 0;
    while i < slots.len()
        invariant
            i <= slots@.len(),
            out@.len() == i,
            forall|j: int| 0 <= j < i ==> (#[trigger] slots@[j]).1 matches TermSlot::Good(_),
            forall|j: int|
                0 <= j < i ==> #[trigger] out@[j] == (Expr {
                    term: slots@[j].1->Good_0,
                    sign: slots@[j].0,
                }),
        decreases slots@.len() - i,
    {
        match slots[i].1 {
            TermSlot::BadDie => {
                proof {
                    lemma_slots_to_exprs(slots@);
                }
                return None;
            },
            TermSlot::Good(t) => {
                out.push(Expr { term: t, sign: slots[i].0 });
                i += 1;
            },
        }
    }
    proof {
        lemma_slots_to_exprs(slots@);
        if let Some(exprs) = slots_to_exprs(slots@) {
            assert(out@ =~= exprs);
        }
    }
    Some(out)
}

/// Read a whole expression: an optional leading separator as the first
/// term's sign, a term, and the `(separator term)*` tail.
///
/// `Err` means no expression could be read at all; `Ok` carries the
/// position after the last matched term, and inside it either the
/// expression or [`InvalidDie`] if any matched term was a zero-sided
/// die.
pub fn dice(s: &[u8], from: usize) -> (r: Result<(Result<Expression, InvalidDie>, usize), ParseError>)
    requires
        from <= s@.len(),
    ensures
        match spec_dice(s@, from as int) {
            DiceParse::Fail => r matches Err(pe) && pe == ParseError::InvalidExpression,
            DiceParse::Bad(end) => r matches Ok((inner, e)) && inner matches Err(_) && e == end,
            DiceParse::Parsed(exprs, end) => r matches Ok((inner, e)) && inner matches Ok(ex)
                && ex@ == exprs && ex.wf() && e == end,
        },
{
    proof {
        lemma_separator_range(s@, from as int);
        lemma_dice_wf(s@, from as int);
    }
    let (sg0, start) = match separator(s, from) {
        Some((sg, j)) => (sg, j),
        None => (Sign::Positive, from),
    };
    proof {
        lemma_term_range(s@, start as int);
    }
    match term_at(s, start) {
        TermLex::Fail => Err(ParseError::InvalidExpression),
        TermLex::TooLarge => Err(ParseError::InvalidExpression),
        TermLex::Bad(k) => match tail_at(s, k) {
            None => Err(ParseError::InvalidExpression),
            Some((_, end)) => Ok((Err(InvalidDie), end)),
        },
        TermLex::Tm(t, k) => match tail_at(s, k) {
            None => Err(ParseError::InvalidExpression),
            Some((rest, end)) => {
                let mut slots: Vec<(Sign, TermSlot)> = Vec::new();
                slots.push((sg0, TermSlot::Good(t)));
                let mut q: usize = 0;
                while q < rest.len()
                    invariant
                        q <= rest@.len(),
                        slots@.len() == q + 1,
                        slots@[0] == (sg0, TermSlot::Good(t)),
                        forall|j: int| 0 <= j < q ==> #[trigger] slots@[j + 1] == rest@[j],
                    decreases rest@.len() - q,
                {
                    slots.push(rest[q]);
                    q += 1;
                }
                proof {
                    assert forall|i: int| 1 <= i < slots@.len() implies slots@[i] == rest@[i
                        - 1] by {
                        assert(slots@[(i - 1) + 1] == rest@[i - 1]);
                    }
                    assert(slots@ =~= seq![(sg0, TermSlot::Good(t))] + rest@);
                }
                match fold_slots(&slots) {
                    None => Ok((Err(InvalidDie), end)),
                    Some(v) => Ok((Ok(Expression::from_exprs(v)), end)),
                }
            },
        },
    }
}

/// Where trimming starts: the leading whitespace run, characterized.
pub proof fn lemma_trim_start(s: Seq<u8>)
    ensures
        0 <= trim_start(s) <= s.len(),
        forall|k: int| 0 <= k < trim_start(s) ==> is_trim_ws(#[trigger] s[k]),
        trim_start(s) == s.len() || !is_trim_ws(s[trim_start(s)]),
    decreases s.len(),
{
    if s.len() > 0 && is_trim_ws(s[0]) {
        let t = s.drop_first();
        lemma_trim_start(t);
        assert(forall|k: int| 0 <= k < t.len() ==> #[trigger] t[k] == s[k + 1]);
        assert forall|k: int| 0 <= k < trim_start(s) implies is_trim_ws(#[trigger] s[k]) by {
            if k > 0 {
                assert(is_trim_ws(t[k - 1]));
            }
        }
    }
}

/// Where trimming ends: the trailing whitespace run, characterized.
pub proof fn lemma_trim_end(s: Seq<u8>)
    ensures
        0 <= trim_end(s) <= s.len(),
        forall|k: int| trim_end(s) <= k < s.len() ==> is_trim_ws(#[trigger] s[k]),
        trim_end(s) == 0 || !is_trim_ws(s[trim_end(s) - 1]),
    decreases s.len(),
{
    if s.len() > 0 && is_trim_ws(s.last()) {
        let t = s.drop_last();
        lemma_trim_end(t);
        assert(forall|k: int| 0 <= k < t.len() ==> #[trigger] t[k] == s[k]);
        assert forall|k: int| trim_end(s) <= k < s.len() implies is_trim_ws(#[trigger] s[k]) by {
            if k < t.len() {
                assert(is_trim_ws(t[k]));
            } else {
                assert(s[k] == s.last());
            }
        }
    }
}

/// Find the bounds of the trimmed input: the byte range that remains
/// once ASCII whitespace is stripped from both ends.
fn trim_indices(s: &[u8]) -> (r: (usize, usize))
    ensures
        r.0 <= r.1 <= s@.len(),
        s@.subrange(r.0 as int, r.1 as int) == spec_trim(s@),
{
    proof {
        lemma_trim_start(s@);
        lemma_trim_end(s@);
    }
    let mut lo: usize = 0;
    while lo < s.len() && (s[lo] == 32 || s[lo] == 9 || s[lo] == 10 || s[lo] == 13 || s[lo] == 11
        || s[lo] == 12)
        invariant
            lo <= s@.len(),
            forall|k: int| 0 <= k < lo ==> is_trim_ws(#[trigger] s@[k]),
        decreases s@.len() - lo,
    {
        lo += 1;
    }
    proof {
        assert(lo == trim_start(s@)) by {
            if lo < trim_start(s@) {
                assert(is_trim_ws(s@[lo as int]));
            }
            if lo > trim_start(s@) {
                assert(is_trim_ws(s@[trim_start(s@)]));
            }
        }
    }
    let mut hi: usize = s.len();
    while hi > lo && (s[hi - 1] == 32 || s[hi - 1] == 9 || s[hi - 1] == 10 || s[hi - 1] == 13 || s[hi
        - 1] == 11 || s[hi - 1] == 12)
        invariant
            lo <= hi <= s@.len(),
            forall|k: int| hi <= k < s@.len() ==> is_trim_ws(#[trigger] s@[k]),
        decreases hi,
    {
        hi -= 1;
    }
    proof {
        if lo == s@.len() {
            // Nothing but whitespace: both spec bounds collapse.
            assert(trim_end(s@) == 0 || !is_trim_ws(s@[trim_end(s@) - 1]));
            if trim_end(s@) > 0 {
                assert(is_trim_ws(s@[trim_end(s@) - 1]));
            }
            assert(trim_end(s@) == 0);
            assert(hi == lo);
            if trim_start(s@) <= trim_end(s@) {
                assert(trim_start(s@) == 0 && s@.len() == 0);
                assert(s@.subrange(lo as int, hi as int) =~= s@.subrange(
                    trim_start(s@),
                    trim_end(s@),
                ));
            } else {
                assert(s@.subrange(lo as int, hi as int) =~= Seq::<u8>::empty());
            }
        } else {
            // A non-whitespace byte stands at `lo`.
            assert(!is_trim_ws(s@[lo as int]));
            assert(trim_end(s@) > lo) by {
                if trim_end(s@) <= lo {
                    assert(is_trim_ws(s@[lo as int]));
                }
            }
            assert(hi == trim_end(s@)) by {
                if hi < trim_end(s@) {
                    assert(is_trim_ws(s@[trim_end(s@) - 1]));
                }
                if hi > trim_end(s@) {
                    assert(is_trim_ws(s@[hi - 1]));
                    assert(hi > lo);
                }
            }
            assert(s@.subrange(lo as int, hi as int) =~= s@.subrange(trim_start(s@), trim_end(s@)));
        }
    }
    (lo, hi)
}

/// Parse a whole input string: trim it, read an expression, and reject
/// any unconsumed trailing text as [`ParseError::InvalidExpression`],
/// never truncating it silently.
pub(crate) fn wrap_dice(input: &str) -> (r: Result<Expression, ParseError>)
    ensures
        match spec_wrap_dice(input.spec_bytes()) {
            Some(exprs) => r matches Ok(e) && e@ == exprs && e.wf() && exprs.len() >= 1,
            None => r matches Err(pe) && pe == ParseError::InvalidExpression,
        },
{
    let bytes = input.as_bytes();
    let (lo, hi) = trim_indices(bytes);
    let t: &[u8] = &bytes[lo..hi];
    proof {
        lemma_dice_wf(t@, 0);
    }
    match dice(t, 0) {
        Err(_) => Err(ParseError::InvalidExpression),
        Ok((inner, end)) => {
            if end != t.len() {
                Err(ParseError::InvalidExpression)
            } else {
                match inner {
                    Err(_) => Err(ParseError::InvalidExpression),
                    Ok(e) => Ok(e),
                }
            }
        },
    }
}
} // verus!
