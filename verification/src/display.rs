//! Rendering of evaluated dice expressions.
//!
//! The rendered form is
//! `[T[ = ]](EXP → N [+ N]*) [+ (EXP → N [+ N]*)]*[[ = ]T]`,
//! shaped by [`FormatOptions`]: where the total stands, whether dice
//! terms show every face or only their sum, what separates terms, and
//! which parentheses appear. If there is exactly one term with exactly
//! one part, the listing is skipped and only the bare total is shown.
use vstd::prelude::*;
use crate::parse::{Expr, Sign, Term};
use crate::post::{
    EvaluatedTerm, ExpressionResult, FormatOptions, RolledDie, TermSeparator, TotalPosition,
};

verus! {

/// The character of one decimal digit.
pub open spec fn digit_char(d: int) -> char {
    (48 + d) as char
}

/// The decimal digits of a non-negative number, most significant
/// first.
pub open spec fn dec_digits(n: int) -> Seq<char>
    decreases n,
{
    if n < 10 {
        seq![digit_char(n)]
    } else {
        dec_digits(n / 10).push(digit_char(n % 10))
    }
}

/// The decimal rendering of a number, with a leading `-` when it is
/// negative.
pub open spec fn dec_int(v: int) -> Seq<char> {
    if v < 0 {
        seq!['-'] + dec_digits(-v)
    } else {
        dec_digits(v)
    }
}

/// A signed value as rendered: its magnitude alone when signs are
/// ignored.
pub open spec fn spec_fmt_i64(v: int, ignore_sign: bool) -> Seq<char> {
    if ignore_sign {
        dec_digits(
            if v < 0 {
                -v
            } else {
                v
            },
        )
    } else {
        dec_int(v)
    }
}

/// The one-character rendering of a sign.
pub open spec fn sign_str(sg: Sign) -> Seq<char> {
    match sg {
        Sign::Positive => seq!['+'],
        Sign::Negative => seq!['-'],
    }
}

/// A term as it stood in the source: `NdS` for dice, the value for a
/// constant, with a leading `-` for a negative term unless signs are
/// ignored.
pub open spec fn spec_expr_src(e: Expr, ignore_sign: bool) -> Seq<char> {
    let sign_prefix: Seq<char> = if !ignore_sign && e.sign == Sign::Negative {
        seq!['-']
    } else {
        Seq::empty()
    };
    sign_prefix + (match e.term {
        Term::Dice(d) => dec_int(d.spec_count()) + seq!['d'] + dec_int(d.spec_sides()),
        Term::Constant(c) => dec_int(c as int),
    })
}

/// The faces of a rolled group after the first, each preceded by the
/// separating sign.
pub open spec fn spec_parts_tail(parts: Seq<i64>, i: int, sep: Sign) -> Seq<char>
    decreases parts.len() - i,
{
    if i >= parts.len() {
        Seq::empty()
    } else {
        seq![' '] + sign_str(sep) + seq![' '] + dec_int(parts[i] as int) + spec_parts_tail(
            parts,
            i + 1,
            sep,
        )
    }
}

/// A rolled group as rendered: its total when terms are summarized,
/// every face joined by the group's sign when there are several, the
/// bare total otherwise.
pub open spec fn spec_die_out(rd: RolledDie, opts: FormatOptions) -> Seq<char> {
    if opts.summarize_terms {
        dec_int(rd.total as int)
    } else if rd.parts@.len() > 1 {
        let first_sign: Seq<char> = if !opts.ignore_sign && rd.sign_part == Sign::Negative {
            seq!['-']
        } else {
            Seq::empty()
        };
        let sep = if !opts.ignore_sign {
            rd.sign_part
        } else {
            Sign::Positive
        };
        first_sign + dec_int(rd.parts@[0] as int) + spec_parts_tail(rd.parts@, 1, sep)
    } else {
        spec_fmt_i64(rd.total as int, opts.ignore_sign)
    }
}

/// One realized outcome as rendered.
pub open spec fn spec_term_out(t: EvaluatedTerm, opts: FormatOptions) -> Seq<char> {
    match t {
        EvaluatedTerm::Die(rd) => spec_die_out(rd, opts),
        EvaluatedTerm::Constant(c) => spec_fmt_i64(c as int, opts.ignore_sign),
    }
}

/// One term with its outcome as rendered: a constant shows only its
/// outcome; a dice term shows `source → outcome`, parenthesized
/// unless turned off.
pub open spec fn spec_pair_out(e: Expr, t: EvaluatedTerm, opts: FormatOptions) -> Seq<char> {
    match e.term {
        Term::Constant(_) => spec_term_out(t, opts),
        Term::Dice(_) => {
            let body = spec_expr_src(e, opts.ignore_sign) + seq![' ', '\u{2192}', ' ']
                + spec_term_out(t, opts);
            if opts.term_parentheses {
                seq!['('] + body + seq![')']
            } else {
                body
            }
        },
    }
}

/// What separates one rendered term from the one before it: the
/// term's sign between spaces, or a comma.
pub open spec fn spec_sep_for(t: EvaluatedTerm, sep: TermSeparator) -> Seq<char> {
    match sep {
        TermSeparator::PlusSign => seq![' '] + sign_str(t.spec_sign()) + seq![' '],
        TermSeparator::Comma => seq![',', ' '],
    }
}

/// The rendered terms after the first, each preceded by its separator.
pub open spec fn spec_listing_tail(
    pairs: Seq<(Expr, EvaluatedTerm)>,
    i: int,
    f: FormatOptions,
    sep: TermSeparator,
) -> Seq<char>
    decreases pairs.len() - i,
{
    if i >= pairs.len() {
        Seq::empty()
    } else {
        spec_sep_for(pairs[i].1, sep) + spec_pair_out(pairs[i].0, pairs[i].1, f)
            + spec_listing_tail(pairs, i + 1, f, sep)
    }
}

/// The full term listing. With plus-sign separators the signs move
/// into the separators — each term drops its own and the first term
/// keeps at most a leading `-`.
pub open spec fn spec_listing(pairs: Seq<(Expr, EvaluatedTerm)>, opts: FormatOptions) -> Seq<
    char,
> {
    let f = if opts.term_separators == TermSeparator::PlusSign {
        FormatOptions { ignore_sign: true, ..opts }
    } else {
        opts
    };
    let lead: Seq<char> = if opts.term_separators == TermSeparator::PlusSign
        && pairs[0].1.spec_sign() == Sign::Negative {
        seq!['-']
    } else {
        Seq::empty()
    };
    let body = lead + spec_pair_out(pairs[0].0, pairs[0].1, f) + spec_listing_tail(
        pairs,
        1,
        f,
        opts.term_separators,
    );
    if opts.term_list_parentheses {
        seq!['('] + body + seq![')']
    } else {
        body
    }
}

/// Whether the listing form is shown at all: more than one term, or
/// one term with more than one part.
pub open spec fn spec_listing_p(pairs: Seq<(Expr, EvaluatedTerm)>) -> bool {
    pairs.len() > 1 || (pairs.len() == 1 && pairs[0].1.spec_parts().len() > 1)
}

/// The whole rendering: the total on the left or right of the listing
/// if asked for, the bare total in place of a skipped listing.
pub open spec fn spec_format(
    pairs: Seq<(Expr, EvaluatedTerm)>,
    total: int,
    opts: FormatOptions,
) -> Seq<char> {
    let listing = spec_listing_p(pairs);
    let total_sep: Seq<char> = if listing {
        seq![' ', '=', ' ']
    } else {
        Seq::empty()
    };
    let left: Seq<char> = if opts.total_position == TotalPosition::Left {
        dec_int(total) + total_sep
    } else {
        Seq::empty()
    };
    let mid: Seq<char> = if pairs.len() == 0 {
        left
    } else if listing {
        left + spec_listing(pairs, opts)
    } else if opts.total_position == TotalPosition::Suppressed {
        dec_int(total)
    } else {
        left
    };
    if opts.total_position == TotalPosition::Right {
        mid + total_sep + dec_int(total)
    } else {
        mid
    }
}

// ---------------------------------------------------------------------
// The renderer, verified against the rendering specification.
// ---------------------------------------------------------------------

/// Append every character of `s`.
fn push_all(out: &mut Vec<char>, s: &Vec<char>)
    ensures
        final(out)@ == old(out)@ + s@,
{
    let mut i: usize = 0;
    while i < s.len()
        invariant
            i <= s@.len(),
            out@ == old(out)@ + s@.subrange(0, i as int),
        decreases s@.len() - i,
    {
        proof {
            assert(old(out)@ + s@.subrange(0, i as int + 1) =~= (old(out)@ + s@.subrange(
                0,
                i as int,
            )).push(s@[i as int]));
        }
        out.push(s[i]);
        i += 1;
    }
    proof {
        assert(s@.subrange(0, s@.len() as int) =~= s@);
    }
}

/// The decimal digits of `n`, most significant first.
fn fmt_u64(n: u64) -> (r: Vec<char>)
    ensures
        r@ == dec_digits(n as int),
    decreases n,
{
    if n < 10 {
        let mut out: Vec<char> = Vec::new();
        out.push((48 + n as u8) as char);
        proof {
            assert(out@ =~= seq![digit_char(n as int)]);
        }
        out
    } else {
        let mut out = fmt_u64(n / 10);
        out.push((48 + (n % 10) as u8) as char);
        out
    }
}

/// The decimal rendering of `v`, with a leading `-` when negative.
fn fmt_i64(v: i64) -> (r: Vec<char>)
    ensures
        r@ == dec_int(v as int),
{
    let mag: u64 = if v < 0 {
        (-(v as i128)) as u64
    } else {
        v as u64
    };
    let digits = fmt_u64(mag);
    if v < 0 {
        let mut out: Vec<char> = Vec::new();
        out.push('-');
        push_all(&mut out, &digits);
        proof {
            assert(out@ =~= seq!['-'] + dec_digits(mag as int));
        }
        out
    } else {
        digits
    }
}

/// The magnitude of `v` in decimal.
fn fmt_mag(v: i64) -> (r: Vec<char>)
    ensures
        r@ == dec_digits(
            if v < 0 {
                -(v as int)
            } else {
                v as int
            },
        ),
{
    let mag: u64 = if v < 0 {
        (-(v as i128)) as u64
    } else {
        v as u64
    };
    fmt_u64(mag)
}

/// Append a signed value as rendered under the options.
fn fmt_value_into(out: &mut Vec<char>, v: i64, ignore_sign: bool)
    ensures
        final(out)@ == old(out)@ + spec_fmt_i64(v as int, ignore_sign),
{
    if ignore_sign {
        let digits = fmt_mag(v);
        push_all(out, &digits);
    } else {
        let digits = fmt_i64(v);
        push_all(out, &digits);
    }
}

/// Append a term as it stood in the source.
fn fmt_expr_src_into(out: &mut Vec<char>, e: &Expr, ignore_sign: bool)
    ensures
        final(out)@ == old(out)@ + spec_expr_src(*e, ignore_sign),
{
    let ghost start = out@;
    if !ignore_sign {
        match e.sign {
            Sign::Negative => out.push('-'),
            Sign::Positive => {},
        }
    }
    match e.term {
        Term::Dice(d) => {
            let n = fmt_i64(d.count_raw());
            push_all(out, &n);
            out.push('d');
            let s = fmt_i64(d.size_raw());
            push_all(out, &s);
        },
        Term::Constant(c) => {
            let v = fmt_i64(c);
            push_all(out, &v);
        },
    }
    proof {
        assert(out@ =~= start + spec_expr_src(*e, ignore_sign));
    }
}

/// Append a rolled group as rendered under the options.
fn fmt_die_out_into(out: &mut Vec<char>, rd: &RolledDie, opts: FormatOptions)
    ensures
        final(out)@ == old(out)@ + spec_die_out(*rd, opts),
{
    let ghost start = out@;
    if opts.summarize_terms {
        let t = fmt_i64(rd.total);
        push_all(out, &t);
    } else if rd.parts.len() > 1 {
        if !opts.ignore_sign {
            match rd.sign_part {
                Sign::Negative => out.push('-'),
                Sign::Positive => {},
            }
        }
        let first = fmt_i64(rd.parts[0]);
        push_all(out, &first);
        let sep = if !opts.ignore_sign {
            rd.sign_part
        } else {
            Sign::Positive
        };
        let mut i: usize = 1;
        while i < rd.parts.len()
            invariant
                1 <= i <= rd.parts@.len(),
                out@ + spec_parts_tail(rd.parts@, i as int, sep) == old(out)@ + spec_die_out(
                    *rd,
                    opts,
                ),
            decreases rd.parts@.len() - i,
        {
            let ghost before = out@;
            out.push(' ');
            match sep {
                Sign::Positive => out.push('+'),
                Sign::Negative => out.push('-'),
            }
            out.push(' ');
            let p = fmt_i64(rd.parts[i]);
            push_all(out, &p);
            proof {
                assert(out@ =~= before + (seq![' '] + sign_str(sep) + seq![' '] + dec_int(
                    rd.parts@[i as int] as int,
                )));
                assert(out@ + spec_parts_tail(rd.parts@, i as int + 1, sep) =~= before
                    + spec_parts_tail(rd.parts@, i as int, sep));
            }
            i += 1;
        }
        proof {
            assert(out@ + Seq::<char>::empty() =~= out@);
        }
    } else {
        fmt_value_into(out, rd.total, opts.ignore_sign);
    }
    proof {
        assert(out@ =~= start + spec_die_out(*rd, opts));
    }
}

/// Append one realized outcome as rendered.
fn fmt_term_out_into(out: &mut Vec<char>, t: &EvaluatedTerm, opts: FormatOptions)
    ensures
        final(out)@ == old(out)@ + spec_term_out(*t, opts),
{
    match t {
        EvaluatedTerm::Die(rd) => fmt_die_out_into(out, rd, opts),
        EvaluatedTerm::Constant(c) => fmt_value_into(out, *c, opts.ignore_sign),
    }
}

/// Append one term with its outcome as rendered.
fn fmt_pair_into(out: &mut Vec<char>, e: &Expr, t: &EvaluatedTerm, opts: FormatOptions)
    ensures
        final(out)@ == old(out)@ + spec_pair_out(*e, *t, opts),
{
    let ghost start = out@;
    match e.term {
        Term::Constant(_) => fmt_term_out_into(out, t, opts),
        Term::Dice(_) => {
            if opts.term_parentheses {
                out.push('(');
            }
            fmt_expr_src_into(out, e, opts.ignore_sign);
            out.push(' ');
            out.push('\u{2192}');
            out.push(' ');
            fmt_term_out_into(out, t, opts);
            if opts.term_parentheses {
                out.push(')');
            }
        },
    }
    proof {
        assert(out@ =~= start + spec_pair_out(*e, *t, opts));
    }
}

/// The sign under which an outcome entered the sum.
fn term_sign(t: &EvaluatedTerm) -> (r: Sign)
    ensures
        r == t.spec_sign(),
{
    match t {
        EvaluatedTerm::Die(rd) => rd.sign_part,
        EvaluatedTerm::Constant(c) => if *c >= 0 {
            Sign::Positive
        } else {
            Sign::Negative
        },
    }
}

/// Render the full term listing into characters.
fn fmt_listing(pairs: &Vec<(Expr, EvaluatedTerm)>, opts: FormatOptions) -> (r: Vec<char>)
    requires
        pairs@.len() > 0,
    ensures
        r@ == spec_listing(pairs@, opts),
{
    let mut out: Vec<char> = Vec::new();
    if opts.term_list_parentheses {
        out.push('(');
    }
    let f = if matches!(opts.term_separators, TermSeparator::PlusSign) {
        opts.exclude_sign()
    } else {
        opts
    };
    if matches!(opts.term_separators, TermSeparator::PlusSign) {
        match term_sign(&pairs[0].1) {
            Sign::Negative => out.push('-'),
            Sign::Positive => {},
        }
    }
    fmt_pair_into(&mut out, &pairs[0].0, &pairs[0].1, f);
    let ghost after_first = out@;
    let mut i: usize = 1;
    while i < pairs.len()
        invariant
            1 <= i <= pairs@.len(),
            out@ + spec_listing_tail(pairs@, i as int, f, opts.term_separators) == after_first
                + spec_listing_tail(pairs@, 1, f, opts.term_separators),
        decreases pairs@.len() - i,
    {
        let ghost before = out@;
        match opts.term_separators {
            TermSeparator::PlusSign => {
                out.push(' ');
                match term_sign(&pairs[i].1) {
                    Sign::Positive => out.push('+'),
                    Sign::Negative => out.push('-'),
                }
                out.push(' ');
            },
            TermSeparator::Comma => {
                out.push(',');
                out.push(' ');
            },
        }
        fmt_pair_into(&mut out, &pairs[i].0, &pairs[i].1, f);
        proof {
            assert(out@ =~= before + (spec_sep_for(pairs@[i as int].1, opts.term_separators)
                + spec_pair_out(pairs@[i as int].0, pairs@[i as int].1, f)));
            assert(out@ + spec_listing_tail(pairs@, i as int + 1, f, opts.term_separators) =~= before
                + spec_listing_tail(pairs@, i as int, f, opts.term_separators));
        }
        i += 1;
    }
    proof {
        assert(out@ + Seq::<char>::empty() =~= out@);
        assert(out@ =~= after_first + spec_listing_tail(pairs@, 1, f, opts.term_separators));
    }
    if opts.term_list_parentheses {
        out.push(')');
    }
    proof {
        assert(out@ =~= spec_listing(pairs@, opts));
    }
    out
}

/// Render a whole result into characters.
#[verifier::rlimit(100)]
pub(crate) fn format_chars(
    pairs: &Vec<(Expr, EvaluatedTerm)>,
    total: i64,
    opts: FormatOptions,
) -> (r: Vec<char>)
    ensures
        r@ == spec_format(pairs@, total as int, opts),
{
    let listing: bool = pairs.len() > 1 || (pairs.len() == 1 && {
        let parts_len: usize = match &pairs[0].1 {
            EvaluatedTerm::Die(rd) => rd.parts.len(),
            EvaluatedTerm::Constant(_) => 1,
        };
        parts_len > 1
    });
    proof {
        assert(listing == spec_listing_p(pairs@));
    }
    let ghost total_sep: Seq<char> = if listing {
        seq![' ', '=', ' ']
    } else {
        Seq::<char>::empty()
    };
    let ghost left: Seq<char> = if opts.total_position == TotalPosition::Left {
        dec_int(total as int) + total_sep
    } else {
        Seq::<char>::empty()
    };
    let mut out: Vec<char> = Vec::new();
    if matches!(opts.total_position, TotalPosition::Left) {
        let t = fmt_i64(total);
        push_all(&mut out, &t);
        if listing {
            out.push(' ');
            out.push('=');
            out.push(' ');
        }
    }
    proof {
        assert(out@ =~= left);
    }
    if pairs.len() == 0 {
        // Nothing to list.
    } else if listing {
        let body = fmt_listing(pairs, opts);
        push_all(&mut out, &body);
    } else if matches!(opts.total_position, TotalPosition::Suppressed) {
        let t = fmt_i64(total);
        out = t;
    }
    let ghost mid = out@;
    if matches!(opts.total_position, TotalPosition::Right) {
        if listing {
            out.push(' ');
            out.push('=');
            out.push(' ');
        }
        let t = fmt_i64(total);
        push_all(&mut out, &t);
        proof {
            assert(out@ =~= mid + total_sep + dec_int(total as int));
        }
    }
    proof {
        assert(out@ =~= spec_format(pairs@, total as int, opts));
    }
    out
}

/// Relies on `String: FromIterator<char>`: collecting characters
/// yields the string of exactly those characters, in order.
#[verifier::external_body]
fn chars_to_string(v: &Vec<char>) -> (r: String)
    ensures
        r@ == v@,
{
    v.iter().collect()
}

impl ExpressionResult {
    /// Render this result under the given options.
    pub fn format(&self, options: FormatOptions) -> (r: String)
        ensures
            r@ == spec_format(self.spec_pairs(), self.spec_total(), options),
    {
        let chars = format_chars(self.pairs(), self.total(), options);
        chars_to_string(&chars)
    }

    /// Render this result under the default options.
    pub fn display(&self) -> (r: String)
        ensures
            r@ == spec_format(self.spec_pairs(), self.spec_total(), FormatOptions::spec_default()),
    {
        self.format(FormatOptions::new())
    }
}

} // verus!
