//! Laws tying rendering and parsing together.
//!
//! The central law: for a result whose terms are all constants, parsing
//! the default rendering back yields an expression whose only possible
//! total is the rendered result's total — parsing is a left inverse of
//! rendering.
use vstd::prelude::*;
use vstd::utf8::{encode_utf8, is_ascii_chars, is_ascii_chars_encode_utf8};
use crate::display::{dec_digits, dec_int, digit_char, spec_format, spec_listing_tail};
use crate::parse::{
    exprs_wf, sum_max, sum_min,
    digit_end, digits_val, is_digit, spec_dice, spec_die, spec_integer, spec_opsign,
    spec_separator, spec_tail, spec_term, spec_trim, spec_wrap_dice, trim_end, trim_start, ws_end,
    DiceParse, DieStep, Expr, IntStep, Sign, TailStep, Term, TermSlot, TermStep,
};
use crate::post::{pairs_wf, valid_eval, values_sum, EvaluatedTerm, FormatOptions, TermSeparator};

verus! {

/// The bytes of an ASCII rendering, character for character.
pub open spec fn ascii_bytes(s: Seq<char>) -> Seq<u8> {
    Seq::new(s.len(), |i: int| s[i] as u8)
}

/// Every character of a decimal rendering is a digit, as a character
/// and as a byte.
proof fn lemma_dec_digits_chars(n: int)
    requires
        n >= 0,
    ensures
        dec_digits(n).len() >= 1,
        forall|k: int|
            0 <= k < dec_digits(n).len() ==> 48 <= (#[trigger] dec_digits(n)[k]) as u8 <= 57,
        forall|k: int|
            0 <= k < dec_digits(n).len() ==> '0' <= #[trigger] dec_digits(n)[k] <= '9',
    decreases n,
{
    if n < 10 {
        assert(dec_digits(n) =~= seq![digit_char(n)]);
        let c = digit_char(n);
        assert(c as u8 == 48 + n);
        assert('0' <= c <= '9');
        assert(dec_digits(n)[0] == c);
    } else {
        lemma_dec_digits_chars(n / 10);
        assert(forall|k: int|
            0 <= k < dec_digits(n / 10).len() ==> dec_digits(n)[k] == #[trigger] dec_digits(
                n / 10,
            )[k]);
        let c = digit_char(n % 10);
        assert(c as u8 == 48 + n % 10);
        assert('0' <= c <= '9');
        assert(dec_digits(n).last() == c);
    }
}

/// A decimal rendering written into a byte string parses back to its
/// value.
proof fn lemma_digits_val_of_dec(s: Seq<u8>, i: int, n: int)
    requires
        n >= 0,
        0 <= i,
        i + dec_digits(n).len() <= s.len(),
        forall|k: int|
            0 <= k < dec_digits(n).len() ==> s[i + k] == (#[trigger] dec_digits(n)[k]) as u8,
    ensures
        digits_val(s, i, i + dec_digits(n).len()) == n,
    decreases n,
{
    lemma_dec_digits_chars(n);
    let len = dec_digits(n).len() as int;
    if n < 10 {
        assert(dec_digits(n) =~= seq![digit_char(n)]);
        assert(dec_digits(n)[0] == digit_char(n));
        assert(s[i + 0] == dec_digits(n)[0] as u8);
        let c = digit_char(n);
        assert(c as u32 == 48 + n);
        assert(c as u8 == 48 + n);
        assert(digits_val(s, i, i) == 0);
        assert(digits_val(s, i, i + 1) == digits_val(s, i, i) * 10 + (s[i] - 48));
    } else {
        lemma_dec_digits_chars(n / 10);
        let lp = dec_digits(n / 10).len() as int;
        assert(lp + 1 == len);
        assert forall|k: int|
            0 <= k < lp implies s[i + k] == (#[trigger] dec_digits(n / 10)[k]) as u8 by {
            assert(dec_digits(n)[k] == dec_digits(n / 10)[k]);
            assert(s[i + k] == dec_digits(n)[k] as u8);
        }
        lemma_digits_val_of_dec(s, i, n / 10);
        assert(dec_digits(n)[len - 1] == digit_char(n % 10));
        assert(s[i + (len - 1)] == dec_digits(n)[len - 1] as u8);
        let c = digit_char(n % 10);
        assert(c as u32 == 48 + n % 10);
        assert(c as u8 == 48 + n % 10);
        assert(digits_val(s, i, i + len) == digits_val(s, i, i + lp) * 10 + (s[i + len - 1] - 48));
    }
}

/// Every byte of a decimal rendering is a digit byte.
proof fn lemma_dec_bytes_are_digits(s: Seq<u8>, i: int, n: int)
    requires
        n >= 0,
        0 <= i,
        i + dec_digits(n).len() <= s.len(),
        forall|k: int|
            0 <= k < dec_digits(n).len() ==> s[i + k] == (#[trigger] dec_digits(n)[k]) as u8,
    ensures
        forall|k: int| i <= k < i + dec_digits(n).len() ==> is_digit(#[trigger] s[k]),
{
    lemma_dec_digits_chars(n);
    assert forall|k: int| i <= k < i + dec_digits(n).len() implies is_digit(#[trigger] s[k]) by {
        assert(s[i + (k - i)] == dec_digits(n)[k - i] as u8);
        assert(48 <= dec_digits(n)[k - i] as u8 <= 57);
    }
}

/// A maximal digit run ends exactly where the digits stop.
proof fn lemma_digit_run_end(s: Seq<u8>, i: int, j: int)
    requires
        0 <= i <= j <= s.len(),
        forall|k: int| i <= k < j ==> is_digit(#[trigger] s[k]),
        j == s.len() || !is_digit(s[j]),
    ensures
        digit_end(s, i) == j,
    decreases j - i,
{
    if i < j {
        lemma_digit_run_end(s, i + 1, j);
    }
}

/// The signed term denoted by one rendered constant value.
pub open spec fn const_expr_of(v: int) -> Expr {
    Expr {
        term: Term::Constant(
            (if v < 0 {
                -v
            } else {
                v
            }) as i64,
        ),
        sign: if v < 0 {
            Sign::Negative
        } else {
            Sign::Positive
        },
    }
}

/// Parsing the decimal rendering of one value yields one constant term
/// carrying the value's sign and magnitude.
#[verifier::rlimit(100)]
#[verifier::spinoff_prover]
proof fn lemma_parse_single_constant(v: int)
    requires
        -i64::MAX <= v <= i64::MAX,
    ensures
        spec_wrap_dice(ascii_bytes(dec_int(v))) == Some(seq![const_expr_of(v)]),
{
    let mag = if v < 0 {
        -v
    } else {
        v
    };
    let s = ascii_bytes(dec_int(v));
    let off: int = if v < 0 {
        1
    } else {
        0
    };
    lemma_dec_digits_chars(mag);
    let dl = dec_digits(mag).len() as int;
    assert(s.len() == off + dl);
    if v < 0 {
        assert(dec_int(v) =~= seq!['-'] + dec_digits(mag));
        assert(s[0] == 45);
        assert(forall|k: int|
            0 <= k < dl ==> s[1 + k] == (#[trigger] dec_digits(mag)[k]) as u8);
    } else {
        assert(dec_int(v) =~= dec_digits(mag));
        assert(forall|k: int|
            0 <= k < dl ==> s[0 + k] == (#[trigger] dec_digits(mag)[k]) as u8);
    }
    lemma_dec_bytes_are_digits(s, off, mag);
    // No whitespace anywhere, so trimming changes nothing.
    assert(!crate::parse::is_trim_ws(s[0])) by {
        if v >= 0 {
            assert(s[0] == dec_digits(mag)[0] as u8);
            assert(48 <= dec_digits(mag)[0] as u8 <= 57);
        }
    }
    assert(!crate::parse::is_trim_ws(s.last())) by {
        assert(s.last() == dec_digits(mag).last() as u8);
        assert(48 <= dec_digits(mag).last() as u8 <= 57);
    }
    assert(trim_start(s) == 0);
    assert(trim_end(s) == s.len());
    assert(spec_trim(s) =~= s);
    // The optional leading separator is the sign, if any.
    assert(ws_end(s, 0) == 0) by {
        assert(!crate::parse::is_sep_ws(s[0]));
    }
    if v < 0 {
        assert(spec_opsign(s, 0) == Some((Sign::Negative, 1int)));
        assert(ws_end(s, 1) == 1) by {
            assert(is_digit(s[1]));
            assert(!crate::parse::is_sep_ws(s[1]));
        }
        assert(spec_separator(s, 0) == Some((Sign::Negative, 1int)));
    } else {
        assert(is_digit(s[0]));
        assert(spec_opsign(s, 0) is None);
        assert(spec_separator(s, 0) is None);
    }
    // The one term: a constant covering the rest of the input.
    lemma_digit_run_end(s, off, s.len() as int);
    lemma_digits_val_of_dec(s, off, mag);
    assert(spec_integer(s, off) == IntStep::Val(mag as i64, s.len() as int));
    assert(spec_die(s, off) is Fail) by {
        assert(crate::parse::spec_die_after_count(s, s.len() as int, mag) is Fail);
    }
    assert(spec_term(s, off) == TermStep::Tm(Term::Constant(mag as i64), s.len() as int));
    // Nothing follows it.
    assert(ws_end(s, s.len() as int) == s.len());
    assert(spec_opsign(s, s.len() as int) is None);
    assert(spec_separator(s, s.len() as int) is None);
    assert(spec_tail(s, s.len() as int) == TailStep::Done(
        Seq::<(Sign, TermSlot)>::empty(),
        s.len() as int,
    ));
    let sg = if v < 0 {
        Sign::Negative
    } else {
        Sign::Positive
    };
    let slots = seq![(sg, TermSlot::Good(Term::Constant(mag as i64)))] + Seq::<(
        Sign,
        TermSlot,
    )>::empty();
    assert(slots =~= seq![(sg, TermSlot::Good(Term::Constant(mag as i64)))]);
    assert(slots.drop_first() =~= Seq::<(Sign, TermSlot)>::empty());
    assert(crate::parse::slots_to_exprs(slots) == Some(seq![const_expr_of(v)])) by {
        assert(crate::parse::slots_to_exprs(Seq::<(Sign, TermSlot)>::empty()) == Some(
            Seq::<Expr>::empty(),
        ));
        assert(seq![const_expr_of(v)] + Seq::<Expr>::empty() =~= seq![const_expr_of(v)]);
    }
    assert(spec_dice(s, 0) == DiceParse::Parsed(seq![const_expr_of(v)], s.len() as int));
}

/// Whether every term of a result is a constant.
pub open spec fn all_constant(pairs: Seq<(Expr, EvaluatedTerm)>) -> bool {
    forall|i: int| 0 <= i < pairs.len() ==> (#[trigger] pairs[i]).0.term matches Term::Constant(_)
}

/// The signed value one outcome contributed.
pub open spec fn pair_value(pr: (Expr, EvaluatedTerm)) -> int {
    pr.1.spec_value()
}

/// The magnitude of that value.
pub open spec fn pair_mag(pr: (Expr, EvaluatedTerm)) -> int {
    if pair_value(pr) < 0 {
        -pair_value(pr)
    } else {
        pair_value(pr)
    }
}

/// The options the listing renders terms under when separators are
/// plus signs: the default, with signs moved out of the terms.
pub open spec fn listing_opts() -> FormatOptions {
    FormatOptions { ignore_sign: true, ..FormatOptions::spec_default() }
}

/// The slots the parser collects back from the rendered tail.
pub open spec fn tail_slots(pairs: Seq<(Expr, EvaluatedTerm)>, i: int) -> Seq<(Sign, TermSlot)> {
    Seq::new(
        (pairs.len() - i) as nat,
        |j: int|
            (
                pairs[i + j].1.spec_sign(),
                TermSlot::Good(Term::Constant(pair_mag(pairs[i + j]) as i64)),
            ),
    )
}

/// Every character of the rendered tail of an all-constant listing is
/// a space, a sign or a digit, and the tail ends in a digit.
proof fn lemma_listing_tail_chars(pairs: Seq<(Expr, EvaluatedTerm)>, i: int)
    requires
        pairs_wf(pairs),
        all_constant(pairs),
        1 <= i <= pairs.len(),
    ensures
        forall|k: int|
            0 <= k < spec_listing_tail(pairs, i, listing_opts(), TermSeparator::PlusSign).len()
                ==> {
                let c = #[trigger] spec_listing_tail(
                    pairs,
                    i,
                    listing_opts(),
                    TermSeparator::PlusSign,
                )[k];
                &&& '\0' <= c <= '\u{7f}'
                &&& (c as u8 == 32 || c as u8 == 43 || c as u8 == 45 || 48 <= c as u8 <= 57)
            },
        i < pairs.len() ==> spec_listing_tail(
            pairs,
            i,
            listing_opts(),
            TermSeparator::PlusSign,
        ).len() >= 1 && 48 <= spec_listing_tail(
            pairs,
            i,
            listing_opts(),
            TermSeparator::PlusSign,
        ).last() as u8 <= 57,
    decreases pairs.len() - i,
{
    let f = listing_opts();
    let sep = TermSeparator::PlusSign;
    if i < pairs.len() {
        lemma_listing_tail_chars(pairs, i + 1);
        let v = pair_value(pairs[i]);
        let m = pair_mag(pairs[i]);
        assert(valid_eval(pairs[i].0, pairs[i].1));
        assert(m >= 0);
        lemma_dec_digits_chars(m);
        let body = crate::display::spec_pair_out(pairs[i].0, pairs[i].1, f);
        assert(body =~= dec_digits(m));
        let sg = pairs[i].1.spec_sign();
        let sep_chars = crate::display::spec_sep_for(pairs[i].1, sep);
        assert(sep_chars =~= seq![' '] + crate::display::sign_str(sg) + seq![' ']);
        assert(sep_chars.len() == 3);
        assert(sep_chars[0] == ' ' && sep_chars[2] == ' ');
        assert(sep_chars[1] == '+' || sep_chars[1] == '-');
        let whole = spec_listing_tail(pairs, i, f, sep);
        let rest = spec_listing_tail(pairs, i + 1, f, sep);
        assert(whole =~= sep_chars + body + rest);
        assert forall|k: int| 0 <= k < whole.len() implies {
            let c = #[trigger] whole[k];
            &&& '\0' <= c <= '\u{7f}'
            &&& (c as u8 == 32 || c as u8 == 43 || c as u8 == 45 || 48 <= c as u8 <= 57)
        } by {
            if k < 3 {
                assert(whole[k] == sep_chars[k]);
            } else if k < 3 + body.len() {
                assert(whole[k] == body[k - 3]);
                assert(48 <= dec_digits(m)[k - 3] as u8 <= 57);
                assert('0' <= dec_digits(m)[k - 3] <= '9');
            } else {
                assert(whole[k] == rest[k - 3 - body.len()]);
            }
        }
        if i + 1 < pairs.len() {
            assert(whole.last() == rest.last());
        } else {
            assert(rest.len() == 0);
            assert(whole.last() == body[body.len() - 1]);
            assert(48 <= dec_digits(m).last() as u8 <= 57);
        }
    }
}

/// Parsing the rendered tail of an all-constant listing collects one
/// good constant slot per term, consuming the input to its end.
#[verifier::rlimit(100)]
#[verifier::spinoff_prover]
proof fn lemma_parse_listing_tail(pairs: Seq<(Expr, EvaluatedTerm)>, i: int, s: Seq<u8>, p: int)
    requires
        pairs_wf(pairs),
        all_constant(pairs),
        1 <= i <= pairs.len(),
        0 <= p <= s.len(),
        s.len() - p == spec_listing_tail(pairs, i, listing_opts(), TermSeparator::PlusSign).len(),
        forall|k: int|
            0 <= k < s.len() - p ==> s[p + k] == (#[trigger] spec_listing_tail(
                pairs,
                i,
                listing_opts(),
                TermSeparator::PlusSign,
            )[k]) as u8,
    ensures
        spec_tail(s, p) == TailStep::Done(tail_slots(pairs, i), s.len() as int),
    decreases pairs.len() - i,
{
    let f = listing_opts();
    let sep = TermSeparator::PlusSign;
    let whole = spec_listing_tail(pairs, i, f, sep);
    if i == pairs.len() {
        assert(whole.len() == 0);
        assert(p == s.len());
        assert(ws_end(s, p) == p);
        assert(spec_opsign(s, p) is None);
        assert(spec_separator(s, p) is None);
        assert(spec_tail(s, p) == TailStep::Done(Seq::<(Sign, TermSlot)>::empty(), p));
        assert(tail_slots(pairs, i) =~= Seq::<(Sign, TermSlot)>::empty());
    } else {
        let v = pair_value(pairs[i]);
        let m = pair_mag(pairs[i]);
        assert(valid_eval(pairs[i].0, pairs[i].1));
        let c0 = pairs[i].0.term->Constant_0;
        assert(pairs[i].0.wf());
        assert(0 <= c0 <= i64::MAX);
        assert(pairs[i].1 matches EvaluatedTerm::Constant(_));
        assert(v == pairs[i].0.sign.spec_apply(c0 as int));
        assert(0 <= m <= i64::MAX);
        lemma_dec_digits_chars(m);
        let body = crate::display::spec_pair_out(pairs[i].0, pairs[i].1, f);
        assert(body =~= dec_digits(m));
        let dl = dec_digits(m).len() as int;
        let sg = pairs[i].1.spec_sign();
        let sep_chars = crate::display::spec_sep_for(pairs[i].1, sep);
        assert(sep_chars =~= seq![' '] + crate::display::sign_str(sg) + seq![' ']);
        let rest = spec_listing_tail(pairs, i + 1, f, sep);
        assert(whole =~= sep_chars + body + rest);
        // Byte values of the separator.
        assert(whole[0] == ' ' && whole[2] == ' ');
        assert(s[p + 0] == (' ') as u8);
        assert(s[p + 2] == (' ') as u8);
        assert((' ') as u8 == 32);
        let sc = whole[1];
        assert(sc == crate::display::sign_str(sg)[0]);
        assert(s[p + 1] == sc as u8);
        assert(sg == Sign::Positive ==> sc == '+' && sc as u8 == 43);
        assert(sg == Sign::Negative ==> sc == '-' && sc as u8 == 45);
        // Digit bytes of the first rendered value.
        assert forall|k: int| 0 <= k < dl implies s[(p + 3) + k] == (#[trigger] dec_digits(m)[k])
            as u8 by {
            assert(whole[3 + k] == body[k]);
            assert(s[p + (3 + k)] == whole[3 + k] as u8);
        }
        lemma_dec_bytes_are_digits(s, p + 3, m);
        // The separator parses: whitespace, the sign, whitespace.
        assert(48 <= dec_digits(m)[0] as u8 <= 57);
        assert(is_digit(s[p + 3]));
        assert(ws_end(s, p) == p + 1) by {
            assert(crate::parse::is_sep_ws(s[p]));
            assert(!crate::parse::is_sep_ws(s[p + 1]));
            assert(ws_end(s, p) == ws_end(s, p + 1));
        }
        assert(spec_opsign(s, p + 1) == Some((sg, p + 2)));
        assert(ws_end(s, p + 2) == p + 3) by {
            assert(crate::parse::is_sep_ws(s[p + 2]));
            assert(!crate::parse::is_sep_ws(s[p + 3]));
            assert(ws_end(s, p + 2) == ws_end(s, p + 3));
        }
        assert(spec_separator(s, p) == Some((sg, p + 3)));
        // The value parses as one constant term.
        let q = p + 3 + dl;
        if i + 1 < pairs.len() {
            lemma_listing_tail_chars(pairs, i + 1);
            assert(whole[3 + dl] == rest[0]);
            assert(s[p + (3 + dl)] == whole[3 + dl] as u8);
            assert(rest[0] == ' ');
            assert(s[q] == 32);
            assert(!is_digit(s[q]));
        } else {
            assert(rest.len() == 0);
            assert(q == s.len());
        }
        lemma_digit_run_end(s, p + 3, q);
        lemma_digits_val_of_dec(s, p + 3, m);
        assert(spec_integer(s, p + 3) == IntStep::Val(m as i64, q));
        assert(spec_die(s, p + 3) is Fail) by {
            if q < s.len() {
                assert(s[q] != 100);
            }
            assert(crate::parse::spec_die_after_count(s, q, m) is Fail);
        }
        assert(spec_term(s, p + 3) == TermStep::Tm(Term::Constant(m as i64), q));
        // The rest of the tail parses by induction.
        assert forall|k: int| 0 <= k < s.len() - q implies s[q + k] == (#[trigger] rest[k])
            as u8 by {
            assert(whole[3 + dl + k] == rest[k]);
            assert(s[p + (3 + dl + k)] == whole[3 + dl + k] as u8);
        }
        lemma_parse_listing_tail(pairs, i + 1, s, q);
        assert(spec_tail(s, p) == TailStep::Done(
            seq![(sg, TermSlot::Good(Term::Constant(m as i64)))] + tail_slots(pairs, i + 1),
            s.len() as int,
        ));
        assert(seq![(sg, TermSlot::Good(Term::Constant(m as i64)))] + tail_slots(pairs, i + 1)
            =~= tail_slots(pairs, i));
    }
}

/// Terms that each pin one value sum to the same totals as the values.
proof fn lemma_sums_match(pairs: Seq<(Expr, EvaluatedTerm)>, exprs: Seq<Expr>, n: int)
    requires
        pairs.len() == exprs.len(),
        0 <= n <= pairs.len(),
        forall|j: int|
            0 <= j < pairs.len() ==> (#[trigger] exprs[j]).spec_min() == pair_value(pairs[j])
                && exprs[j].spec_max() == pair_value(pairs[j]),
    ensures
        sum_min(exprs, n) == values_sum(pairs, n),
        sum_max(exprs, n) == values_sum(pairs, n),
    decreases n,
{
    if n > 0 {
        lemma_sums_match(pairs, exprs, n - 1);
    }
}

/// The value facts the rendering lemmas need of an all-constant
/// result: each outcome is a constant within `i64` magnitude.
proof fn lemma_constant_pairs_facts(pairs: Seq<(Expr, EvaluatedTerm)>)
    requires
        pairs_wf(pairs),
        all_constant(pairs),
    ensures
        forall|j: int|
            0 <= j < pairs.len() ==> {
                &&& (#[trigger] pairs[j]).1 matches EvaluatedTerm::Constant(_)
                &&& -i64::MAX <= pair_value(pairs[j]) <= i64::MAX
                &&& 0 <= pair_mag(pairs[j]) <= i64::MAX
                &&& pairs[j].1.spec_parts().len() == 1
            },
{
    assert forall|j: int| 0 <= j < pairs.len() implies {
        &&& (#[trigger] pairs[j]).1 matches EvaluatedTerm::Constant(_)
        &&& -i64::MAX <= pair_value(pairs[j]) <= i64::MAX
        &&& 0 <= pair_mag(pairs[j]) <= i64::MAX
        &&& pairs[j].1.spec_parts().len() == 1
    } by {
        assert(valid_eval(pairs[j].0, pairs[j].1));
        assert(pairs[j].0.wf());
        let c = pairs[j].0.term->Constant_0;
        assert(pair_value(pairs[j]) == pairs[j].0.sign.spec_apply(c as int));
    }
}

/// Parsing is a left inverse of rendering, for results whose terms are
/// all constants: the default rendering of such a result parses back
/// to an expression whose least and greatest possible totals both
/// equal the rendered result's total — re-evaluating it can only
/// reproduce that total.
pub proof fn lemma_parse_inverts_constant_render(pairs: Seq<(Expr, EvaluatedTerm)>, total: i64)
    requires
        pairs.len() >= 1,
        pairs_wf(pairs),
        all_constant(pairs),
        total as int == values_sum(pairs, pairs.len() as int),
    ensures
        is_ascii_chars(spec_format(pairs, total as int, FormatOptions::spec_default())),
        spec_wrap_dice(
            encode_utf8(spec_format(pairs, total as int, FormatOptions::spec_default())),
        ) matches Some(exprs) && exprs.len() == pairs.len() && exprs_wf(exprs) && sum_min(
            exprs,
            exprs.len() as int,
        ) == total && sum_max(exprs, exprs.len() as int) == total,
{
    if pairs.len() == 1 {
        lemma_parse_single_constant_render(pairs, total);
    } else {
        lemma_parse_multi_constant_render(pairs, total);
    }
}

/// The one-term case: the rendering is the bare total.
#[verifier::rlimit(100)]
#[verifier::spinoff_prover]
proof fn lemma_parse_single_constant_render(pairs: Seq<(Expr, EvaluatedTerm)>, total: i64)
    requires
        pairs.len() == 1,
        pairs_wf(pairs),
        all_constant(pairs),
        total as int == values_sum(pairs, pairs.len() as int),
    ensures
        is_ascii_chars(spec_format(pairs, total as int, FormatOptions::spec_default())),
        spec_wrap_dice(
            encode_utf8(spec_format(pairs, total as int, FormatOptions::spec_default())),
        ) matches Some(exprs) && exprs.len() == pairs.len() && exprs_wf(exprs) && sum_min(
            exprs,
            exprs.len() as int,
        ) == total && sum_max(exprs, exprs.len() as int) == total,
{
    let opts = FormatOptions::spec_default();
    let rendered = spec_format(pairs, total as int, opts);
    lemma_constant_pairs_facts(pairs);
    {
        assert(!crate::display::spec_listing_p(pairs));
        assert(rendered =~= dec_int(total as int));
        assert(values_sum(pairs, 0) == 0);
        assert(values_sum(pairs, 1) == values_sum(pairs, 0) + pairs[0].1.spec_value());
        assert(total as int == pair_value(pairs[0]));
        lemma_parse_single_constant(total as int);
        let exprs = seq![const_expr_of(total as int)];
        assert(spec_wrap_dice(ascii_bytes(dec_int(total as int))) == Some(exprs));
        assert(ascii_bytes(rendered) =~= ascii_bytes(dec_int(total as int)));
        // The rendering is ASCII, so its UTF-8 bytes are its characters.
        let mag = pair_mag(pairs[0]);
        lemma_dec_digits_chars(mag);
        assert(is_ascii_chars(rendered)) by {
            assert forall|k: int| 0 <= k < rendered.len() implies '\0' <= #[trigger] rendered[k]
                <= '\u{7f}' by {
                if total < 0 {
                    assert(rendered =~= seq!['-'] + dec_digits(mag));
                    if k > 0 {
                        assert(rendered[k] == dec_digits(mag)[k - 1]);
                        assert('0' <= dec_digits(mag)[k - 1] <= '9');
                    }
                } else {
                    assert(rendered[k] == dec_digits(mag)[k]);
                    assert('0' <= dec_digits(mag)[k] <= '9');
                }
            }
        }
        is_ascii_chars_encode_utf8(rendered);
        assert(encode_utf8(rendered) =~= ascii_bytes(rendered));
        // The reparsed term pins the total exactly.
        assert(exprs[0].spec_min() == total as int);
        assert(exprs[0].spec_max() == total as int);
        assert(sum_min(exprs, 1) == sum_min(exprs, 0) + exprs[0].spec_min());
        assert(sum_max(exprs, 1) == sum_max(exprs, 0) + exprs[0].spec_max());
        assert(exprs_wf(exprs)) by {
            assert(exprs[0].wf());
        }
    }
}

/// The several-terms case: the rendering is the signed listing.
#[verifier::rlimit(100)]
#[verifier::spinoff_prover]
proof fn lemma_parse_multi_constant_render(pairs: Seq<(Expr, EvaluatedTerm)>, total: i64)
    requires
        pairs.len() >= 2,
        pairs_wf(pairs),
        all_constant(pairs),
        total as int == values_sum(pairs, pairs.len() as int),
    ensures
        is_ascii_chars(spec_format(pairs, total as int, FormatOptions::spec_default())),
        spec_wrap_dice(
            encode_utf8(spec_format(pairs, total as int, FormatOptions::spec_default())),
        ) matches Some(exprs) && exprs.len() == pairs.len() && exprs_wf(exprs) && sum_min(
            exprs,
            exprs.len() as int,
        ) == total && sum_max(exprs, exprs.len() as int) == total,
{
    let opts = FormatOptions::spec_default();
    let rendered = spec_format(pairs, total as int, opts);
    lemma_constant_pairs_facts(pairs);
    {
        let f = listing_opts();
        let sg0 = pairs[0].1.spec_sign();
        let m0 = pair_mag(pairs[0]);
        let v0 = pair_value(pairs[0]);
        let lead: Seq<char> = if sg0 == Sign::Negative {
            seq!['-']
        } else {
            Seq::empty()
        };
        let body0 = crate::display::spec_pair_out(pairs[0].0, pairs[0].1, f);
        let tail_r = spec_listing_tail(pairs, 1, f, TermSeparator::PlusSign);
        assert(crate::display::spec_listing_p(pairs));
        assert(body0 =~= dec_digits(m0));
        assert(rendered =~= lead + dec_digits(m0) + tail_r) by {
            assert(crate::display::spec_listing(pairs, opts) =~= lead + body0 + tail_r);
        }
        lemma_dec_digits_chars(m0);
        lemma_listing_tail_chars(pairs, 1);
        let dl = dec_digits(m0).len() as int;
        let off: int = lead.len() as int;
        let s = ascii_bytes(rendered);
        assert(s.len() == off + dl + tail_r.len());
        // Byte values everywhere.
        if sg0 == Sign::Negative {
            assert(rendered[0] == '-');
            assert(s[0] == 45);
        }
        assert forall|k: int| 0 <= k < dl implies s[off + k] == (#[trigger] dec_digits(m0)[k])
            as u8 by {
            assert(rendered[off + k] == dec_digits(m0)[k]);
        }
        assert forall|k: int| 0 <= k < tail_r.len() implies s[(off + dl) + k] == (#[trigger] tail_r[k])
            as u8 by {
            assert(rendered[off + dl + k] == tail_r[k]);
        }
        lemma_dec_bytes_are_digits(s, off, m0);
        // ASCII throughout.
        assert(is_ascii_chars(rendered)) by {
            assert forall|k: int| 0 <= k < rendered.len() implies '\0' <= #[trigger] rendered[k]
                <= '\u{7f}' by {
                if k < off {
                } else if k < off + dl {
                    assert(rendered[k] == dec_digits(m0)[k - off]);
                    assert('0' <= dec_digits(m0)[k - off] <= '9');
                } else {
                    assert(rendered[k] == tail_r[k - off - dl]);
                }
            }
        }
        is_ascii_chars_encode_utf8(rendered);
        assert(encode_utf8(rendered) =~= s);
        // Trimming changes nothing.
        assert(1 < pairs.len());
        assert(tail_r.len() >= 1);
        assert(!crate::parse::is_trim_ws(s[0])) by {
            if sg0 != Sign::Negative {
                assert(s[0int] == dec_digits(m0)[0] as u8);
                assert(48 <= dec_digits(m0)[0] as u8 <= 57);
            }
        }
        assert(!crate::parse::is_trim_ws(s.last())) by {
            assert(s.last() == tail_r.last() as u8);
            assert(48 <= tail_r.last() as u8 <= 57);
        }
        assert(trim_start(s) == 0);
        assert(trim_end(s) == s.len());
        assert(spec_trim(s) =~= s);
        // The optional leading separator is the first term's sign.
        assert(48 <= dec_digits(m0)[0] as u8 <= 57);
        assert(is_digit(s[off]));
        assert(ws_end(s, 0) == 0) by {
            assert(!crate::parse::is_sep_ws(s[0]));
        }
        if sg0 == Sign::Negative {
            assert(spec_opsign(s, 0) == Some((Sign::Negative, 1int)));
            assert(ws_end(s, 1) == 1) by {
                assert(!crate::parse::is_sep_ws(s[1]));
            }
            assert(spec_separator(s, 0) == Some((Sign::Negative, 1int)));
        } else {
            assert(spec_opsign(s, 0) is None);
            assert(spec_separator(s, 0) is None);
        }
        // The first term parses as a constant.
        let q0 = off + dl;
        assert(tail_r[0] == ' ') by {
            assert(crate::display::spec_sep_for(pairs[1].1, TermSeparator::PlusSign)[0] == ' ');
            assert(spec_listing_tail(pairs, 1, f, TermSeparator::PlusSign) =~= crate::display::spec_sep_for(
                pairs[1].1,
                TermSeparator::PlusSign,
            ) + crate::display::spec_pair_out(pairs[1].0, pairs[1].1, f) + spec_listing_tail(
                pairs,
                2,
                f,
                TermSeparator::PlusSign,
            ));
        }
        assert(s[q0] == 32);
        assert(!is_digit(s[q0]));
        lemma_digit_run_end(s, off, q0);
        lemma_digits_val_of_dec(s, off, m0);
        assert(spec_integer(s, off) == IntStep::Val(m0 as i64, q0));
        assert(spec_die(s, off) is Fail) by {
            assert(s[q0] != 100);
            assert(crate::parse::spec_die_after_count(s, q0, m0) is Fail);
        }
        assert(spec_term(s, off) == TermStep::Tm(Term::Constant(m0 as i64), q0));
        // The rest of the terms parse as the tail.
        lemma_parse_listing_tail(pairs, 1, s, q0);
        let slots = seq![(sg0, TermSlot::Good(Term::Constant(m0 as i64)))] + tail_slots(pairs, 1);
        assert(spec_dice(s, 0) matches DiceParse::Parsed(e, end) ==> end == s.len());
        crate::parse::lemma_slots_to_exprs(slots);
        assert(forall|j: int|
            0 <= j < slots.len() ==> (#[trigger] slots[j]).1 matches TermSlot::Good(_));
        let exprs = crate::parse::slots_to_exprs(slots)->Some_0;
        assert(spec_dice(s, 0) == DiceParse::Parsed(exprs, s.len() as int));
        assert(spec_wrap_dice(s) == Some(exprs));
        // Each reparsed term pins exactly its source value.
        assert(exprs.len() == pairs.len());
        assert forall|j: int| 0 <= j < pairs.len() implies (#[trigger] exprs[j]).spec_min()
            == pair_value(pairs[j]) && exprs[j].spec_max() == pair_value(pairs[j]) && exprs[j].wf() by {
            if j == 0 {
                assert(slots[0] == (sg0, TermSlot::Good(Term::Constant(m0 as i64))));
                assert(exprs[0] == (Expr { term: Term::Constant(m0 as i64), sign: sg0 }));
                assert(sg0.spec_apply(m0) == v0);
            } else {
                assert(slots[j] == tail_slots(pairs, 1)[j - 1]);
                assert(slots[j] == (
                    pairs[j].1.spec_sign(),
                    TermSlot::Good(Term::Constant(pair_mag(pairs[j]) as i64)),
                ));
                assert(exprs[j] == (Expr {
                    term: Term::Constant(pair_mag(pairs[j]) as i64),
                    sign: pairs[j].1.spec_sign(),
                }));
                assert(pairs[j].1.spec_sign().spec_apply(pair_mag(pairs[j])) == pair_value(
                    pairs[j],
                ));
            }
        }
        lemma_sums_match(pairs, exprs, pairs.len() as int);
        assert(exprs_wf(exprs));
    }
}

/// Every faithful evaluation of the same terms stays in bounds: re-roll
/// an expression with any sources, as often as wished — each total lies
/// between the sum of the terms' least contributions and the sum of
/// their greatest.
pub proof fn lemma_rerolls_stay_in_bounds(
    exprs: Seq<Expr>,
    pairs: Seq<(Expr, EvaluatedTerm)>,
    n: int,
)
    requires
        exprs_wf(exprs),
        pairs.len() == exprs.len(),
        forall|i: int| 0 <= i < pairs.len() ==> (#[trigger] pairs[i]).0 == exprs[i],
        pairs_wf(pairs),
        0 <= n <= pairs.len(),
    ensures
        sum_min(exprs, n) <= values_sum(pairs, n) <= sum_max(exprs, n),
    decreases n,
{
    if n > 0 {
        lemma_rerolls_stay_in_bounds(exprs, pairs, n - 1);
        crate::lemma_valid_eval_bounds(pairs[n - 1].0, pairs[n - 1].1);
    }
}

// ---------------------------------------------------------------------
// Changing separators and the total's position never changes the
// numeric values shown.
// ---------------------------------------------------------------------

/// A decimal digit character.
pub open spec fn is_digit_char(c: char) -> bool {
    '0' <= c <= '9'
}

/// The digit characters of a rendering, in order: the numeric content
/// shown, stripped of all decoration.
pub open spec fn digit_content(s: Seq<char>) -> Seq<char> {
    s.filter(|c: char| is_digit_char(c))
}

/// The old-style options: the total on the left, terms separated by
/// commas.
pub open spec fn old_style() -> FormatOptions {
    FormatOptions {
        total_position: crate::post::TotalPosition::Left,
        term_separators: TermSeparator::Comma,
        ..FormatOptions::spec_default()
    }
}

/// Digit content distributes over concatenation.
proof fn lemma_content_add(a: Seq<char>, b: Seq<char>)
    ensures
        digit_content(a + b) == digit_content(a) + digit_content(b),
{
    broadcast use Seq::filter_distributes_over_add;

    assert((a + b).filter(|c: char| is_digit_char(c)) == a.filter(|c: char| is_digit_char(c))
        + b.filter(|c: char| is_digit_char(c)));
}

/// A rendering of digits alone is its own digit content.
proof fn lemma_content_all_digits(s: Seq<char>)
    requires
        forall|i: int| 0 <= i < s.len() ==> is_digit_char(#[trigger] s[i]),
    ensures
        digit_content(s) == s,
    decreases s.len(),
{
    reveal(Seq::filter);
    if s.len() > 0 {
        lemma_content_all_digits(s.drop_last());
        assert(digit_content(s) =~= s);
    } else {
        assert(digit_content(s) =~= s);
    }
}

/// A rendering without digits has empty digit content.
proof fn lemma_content_no_digits(s: Seq<char>)
    requires
        forall|i: int| 0 <= i < s.len() ==> !is_digit_char(#[trigger] s[i]),
    ensures
        digit_content(s) == Seq::<char>::empty(),
    decreases s.len(),
{
    reveal(Seq::filter);
    if s.len() > 0 {
        lemma_content_no_digits(s.drop_last());
        assert(digit_content(s) =~= Seq::<char>::empty());
    } else {
        assert(digit_content(s) =~= Seq::<char>::empty());
    }
}

/// The digit content of a rendered value is the digits of its
/// magnitude, whether or not its sign is shown.
proof fn lemma_content_fmt_i64(v: int, ignore_sign: bool)
    ensures
        digit_content(crate::display::spec_fmt_i64(v, ignore_sign)) == dec_digits(
            if v < 0 {
                -v
            } else {
                v
            },
        ),
{
    let m = if v < 0 {
        -v
    } else {
        v
    };
    lemma_dec_digits_chars(m);
    assert forall|i: int| 0 <= i < dec_digits(m).len() implies is_digit_char(
        #[trigger] dec_digits(m)[i],
    ) by {}
    lemma_content_all_digits(dec_digits(m));
    if !ignore_sign && v < 0 {
        assert(dec_int(v) == seq!['-'] + dec_digits(m));
        lemma_content_no_digits(seq!['-']);
        lemma_content_add(seq!['-'], dec_digits(m));
        assert(Seq::<char>::empty() + dec_digits(m) =~= dec_digits(m));
    }
}

/// The digit content of a rendered source term does not depend on
/// whether its sign is shown.
proof fn lemma_content_expr_src(e: Expr, is1: bool, is2: bool)
    ensures
        digit_content(crate::display::spec_expr_src(e, is1)) == digit_content(
            crate::display::spec_expr_src(e, is2),
        ),
{
    lemma_content_expr_src_one(e, is1);
    lemma_content_expr_src_one(e, is2);
}

/// The digit content of a rendered source term, named.
proof fn lemma_content_expr_src_one(e: Expr, ignore_sign: bool)
    ensures
        digit_content(crate::display::spec_expr_src(e, ignore_sign)) == (match e.term {
            Term::Dice(d) => dec_digits(
                if d.spec_count() < 0 {
                    -d.spec_count()
                } else {
                    d.spec_count()
                },
            ) + dec_digits(
                if d.spec_sides() < 0 {
                    -d.spec_sides()
                } else {
                    d.spec_sides()
                },
            ),
            Term::Constant(c) => dec_digits(
                if c < 0 {
                    -(c as int)
                } else {
                    c as int
                },
            ),
        }),
{
    let prefix: Seq<char> = if !ignore_sign && e.sign == Sign::Negative {
        seq!['-']
    } else {
        Seq::empty()
    };
    lemma_content_no_digits(prefix);
    match e.term {
        Term::Dice(d) => {
            let n = d.spec_count();
            let s = d.spec_sides();
            let body = dec_int(n) + seq!['d'] + dec_int(s);
            lemma_content_add(prefix, body);
            lemma_content_add(dec_int(n) + seq!['d'], dec_int(s));
            lemma_content_add(dec_int(n), seq!['d']);
            lemma_content_no_digits(seq!['d']);
            assert(digit_content(dec_int(n)) == dec_digits(
                if n < 0 {
                    -n
                } else {
                    n
                },
            )) by {
                lemma_content_fmt_i64(n, false);
            }
            assert(digit_content(dec_int(s)) == dec_digits(
                if s < 0 {
                    -s
                } else {
                    s
                },
            )) by {
                lemma_content_fmt_i64(s, false);
            }
            assert(Seq::<char>::empty() + (digit_content(dec_int(n)) + Seq::<char>::empty()
                + digit_content(dec_int(s))) =~= digit_content(dec_int(n)) + digit_content(
                dec_int(s),
            ));
        },
        Term::Constant(c) => {
            lemma_content_add(prefix, dec_int(c as int));
            lemma_content_fmt_i64(c as int, false);
            assert(Seq::<char>::empty() + digit_content(dec_int(c as int)) =~= digit_content(
                dec_int(c as int),
            ));
        },
    }
}

/// The digit content of the faces after the first does not depend on
/// the separating sign.
proof fn lemma_content_parts_tail(parts: Seq<i64>, i: int, s1: Sign, s2: Sign)
    requires
        0 <= i,
    ensures
        digit_content(crate::display::spec_parts_tail(parts, i, s1)) == digit_content(
            crate::display::spec_parts_tail(parts, i, s2),
        ),
    decreases parts.len() - i,
{
    if i >= parts.len() {
    } else {
        lemma_content_parts_tail(parts, i + 1, s1, s2);
        lemma_content_parts_tail_step(parts, i, s1);
        lemma_content_parts_tail_step(parts, i, s2);
    }
}

/// One step of the faces rendering: its digit content is the face's
/// digits followed by the rest.
proof fn lemma_content_parts_tail_step(parts: Seq<i64>, i: int, sg: Sign)
    requires
        0 <= i < parts.len(),
    ensures
        digit_content(crate::display::spec_parts_tail(parts, i, sg)) == dec_digits(
            if parts[i] < 0 {
                -(parts[i] as int)
            } else {
                parts[i] as int
            },
        ) + digit_content(crate::display::spec_parts_tail(parts, i + 1, sg)),
{
    let sep = seq![' '] + crate::display::sign_str(sg) + seq![' '];
    let v = parts[i] as int;
    let rest = crate::display::spec_parts_tail(parts, i + 1, sg);
    assert(crate::display::spec_parts_tail(parts, i, sg) == sep + dec_int(v) + rest) by {
        assert(seq![' '] + crate::display::sign_str(sg) + seq![' '] + dec_int(v) + rest =~= sep
            + dec_int(v) + rest);
    }
    lemma_content_add(sep + dec_int(v), rest);
    lemma_content_add(sep, dec_int(v));
    assert(sep.len() == 3);
    assert(!is_digit_char(sep[0]) && !is_digit_char(sep[1]) && !is_digit_char(sep[2]));
    lemma_content_no_digits(sep);
    lemma_content_fmt_i64(v, false);
    assert(Seq::<char>::empty() + dec_digits(
        if v < 0 {
            -v
        } else {
            v
        },
    ) + digit_content(rest) =~= dec_digits(
        if v < 0 {
            -v
        } else {
            v
        },
    ) + digit_content(rest));
}

/// The digit content of a rendered outcome depends only on the
/// verbosity, never on signs, separators, positions or parentheses.
proof fn lemma_content_term_out(t: EvaluatedTerm, o1: FormatOptions, o2: FormatOptions)
    requires
        o1.summarize_terms == o2.summarize_terms,
    ensures
        digit_content(crate::display::spec_term_out(t, o1)) == digit_content(
            crate::display::spec_term_out(t, o2),
        ),
{
    match t {
        EvaluatedTerm::Constant(c) => {
            lemma_content_fmt_i64(c as int, o1.ignore_sign);
            lemma_content_fmt_i64(c as int, o2.ignore_sign);
        },
        EvaluatedTerm::Die(rd) => {
            if o1.summarize_terms {
                lemma_content_fmt_i64(rd.total as int, false);
            } else if rd.parts@.len() > 1 {
                lemma_content_die_verbose(rd, o1);
                lemma_content_die_verbose(rd, o2);
                let sep1 = if !o1.ignore_sign {
                    rd.sign_part
                } else {
                    Sign::Positive
                };
                let sep2 = if !o2.ignore_sign {
                    rd.sign_part
                } else {
                    Sign::Positive
                };
                lemma_content_parts_tail(rd.parts@, 1, sep1, sep2);
            } else {
                lemma_content_fmt_i64(rd.total as int, o1.ignore_sign);
                lemma_content_fmt_i64(rd.total as int, o2.ignore_sign);
            }
        },
    }
}

/// The verbose rendering of a rolled group: its digit content is the
/// first face's digits followed by the remaining faces' content.
proof fn lemma_content_die_verbose(rd: crate::post::RolledDie, o: FormatOptions)
    requires
        !o.summarize_terms,
        rd.parts@.len() > 1,
    ensures
        digit_content(crate::display::spec_die_out(rd, o)) == dec_digits(
            if rd.parts@[0] < 0 {
                -(rd.parts@[0] as int)
            } else {
                rd.parts@[0] as int
            },
        ) + digit_content(
            crate::display::spec_parts_tail(
                rd.parts@,
                1,
                if !o.ignore_sign {
                    rd.sign_part
                } else {
                    Sign::Positive
                },
            ),
        ),
{
    let first_sign: Seq<char> = if !o.ignore_sign && rd.sign_part == Sign::Negative {
        seq!['-']
    } else {
        Seq::empty()
    };
    let sep = if !o.ignore_sign {
        rd.sign_part
    } else {
        Sign::Positive
    };
    let v = rd.parts@[0] as int;
    let rest = crate::display::spec_parts_tail(rd.parts@, 1, sep);
    lemma_content_add(first_sign + dec_int(v), rest);
    lemma_content_add(first_sign, dec_int(v));
    lemma_content_no_digits(first_sign);
    lemma_content_fmt_i64(v, false);
    assert(Seq::<char>::empty() + dec_digits(
        if v < 0 {
            -v
        } else {
            v
        },
    ) + digit_content(rest) =~= dec_digits(
        if v < 0 {
            -v
        } else {
            v
        },
    ) + digit_content(rest));
}

/// The digit content of one rendered term with its outcome depends
/// only on the verbosity.
proof fn lemma_content_pair_out(e: Expr, t: EvaluatedTerm, o1: FormatOptions, o2: FormatOptions)
    requires
        o1.summarize_terms == o2.summarize_terms,
    ensures
        digit_content(crate::display::spec_pair_out(e, t, o1)) == digit_content(
            crate::display::spec_pair_out(e, t, o2),
        ),
{
    match e.term {
        Term::Constant(_) => {
            lemma_content_term_out(t, o1, o2);
        },
        Term::Dice(_) => {
            lemma_content_pair_dice(e, t, o1);
            lemma_content_pair_dice(e, t, o2);
            lemma_content_expr_src(e, o1.ignore_sign, o2.ignore_sign);
            lemma_content_term_out(t, o1, o2);
        },
    }
}

/// A rendered dice term's digit content: its source's digits followed
/// by its outcome's, parentheses and the arrow contributing nothing.
proof fn lemma_content_pair_dice(e: Expr, t: EvaluatedTerm, o: FormatOptions)
    requires
        e.term matches Term::Dice(_),
    ensures
        digit_content(crate::display::spec_pair_out(e, t, o)) == digit_content(
            crate::display::spec_expr_src(e, o.ignore_sign),
        ) + digit_content(crate::display::spec_term_out(t, o)),
{
    let src = crate::display::spec_expr_src(e, o.ignore_sign);
    let arrow = seq![' ', '\u{2192}', ' '];
    let out = crate::display::spec_term_out(t, o);
    let body = src + arrow + out;
    assert(!is_digit_char(arrow[0]) && !is_digit_char(arrow[1]) && !is_digit_char(arrow[2]));
    lemma_content_no_digits(arrow);
    lemma_content_add(src + arrow, out);
    lemma_content_add(src, arrow);
    if o.term_parentheses {
        lemma_content_add(seq!['('] + body, seq![')']);
        lemma_content_add(seq!['('], body);
        lemma_content_no_digits(seq!['(']);
        lemma_content_no_digits(seq![')']);
        assert(crate::display::spec_pair_out(e, t, o) == seq!['('] + body + seq![')']);
        assert(Seq::<char>::empty() + (digit_content(src) + Seq::<char>::empty() + digit_content(
            out,
        )) + Seq::<char>::empty() =~= digit_content(src) + digit_content(out));
    } else {
        assert(digit_content(src) + Seq::<char>::empty() + digit_content(out) =~= digit_content(
            src,
        ) + digit_content(out));
    }
}

/// The digit content of the rendered terms after the first depends
/// only on the verbosity, never on the separator kind.
proof fn lemma_content_tail(
    pairs: Seq<(Expr, EvaluatedTerm)>,
    i: int,
    o1: FormatOptions,
    sep1: TermSeparator,
    o2: FormatOptions,
    sep2: TermSeparator,
)
    requires
        0 <= i,
        o1.summarize_terms == o2.summarize_terms,
    ensures
        digit_content(spec_listing_tail(pairs, i, o1, sep1)) == digit_content(
            spec_listing_tail(pairs, i, o2, sep2),
        ),
    decreases pairs.len() - i,
{
    if i >= pairs.len() {
    } else {
        lemma_content_tail(pairs, i + 1, o1, sep1, o2, sep2);
        lemma_content_tail_step(pairs, i, o1, sep1);
        lemma_content_tail_step(pairs, i, o2, sep2);
        lemma_content_pair_out(pairs[i].0, pairs[i].1, o1, o2);
    }
}

/// One step of the tail rendering: its digit content is the term's
/// content followed by the rest's.
proof fn lemma_content_tail_step(
    pairs: Seq<(Expr, EvaluatedTerm)>,
    i: int,
    o: FormatOptions,
    sep: TermSeparator,
)
    requires
        0 <= i < pairs.len(),
    ensures
        digit_content(spec_listing_tail(pairs, i, o, sep)) == digit_content(
            crate::display::spec_pair_out(pairs[i].0, pairs[i].1, o),
        ) + digit_content(spec_listing_tail(pairs, i + 1, o, sep)),
{
    let sc = crate::display::spec_sep_for(pairs[i].1, sep);
    let body = crate::display::spec_pair_out(pairs[i].0, pairs[i].1, o);
    let rest = spec_listing_tail(pairs, i + 1, o, sep);
    assert(spec_listing_tail(pairs, i, o, sep) == sc + body + rest);
    lemma_content_add(sc + body, rest);
    lemma_content_add(sc, body);
    match sep {
        TermSeparator::PlusSign => {
            assert(sc == seq![' '] + crate::display::sign_str(pairs[i].1.spec_sign()) + seq![' ']);
            assert(!is_digit_char(sc[0]) && !is_digit_char(sc[1]) && !is_digit_char(sc[2]));
        },
        TermSeparator::Comma => {
            assert(sc == seq![',', ' ']);
            assert(!is_digit_char(sc[0]) && !is_digit_char(sc[1]));
        },
    }
    lemma_content_no_digits(sc);
    assert(Seq::<char>::empty() + digit_content(body) + digit_content(rest) =~= digit_content(body)
        + digit_content(rest));
}

/// The digit content of the whole term listing depends only on the
/// verbosity.
proof fn lemma_content_listing(pairs: Seq<(Expr, EvaluatedTerm)>, o1: FormatOptions, o2: FormatOptions)
    requires
        pairs.len() >= 1,
        o1.summarize_terms == o2.summarize_terms,
    ensures
        digit_content(crate::display::spec_listing(pairs, o1)) == digit_content(
            crate::display::spec_listing(pairs, o2),
        ),
{
    lemma_content_listing_one(pairs, o1);
    lemma_content_listing_one(pairs, o2);
    let f1 = if o1.term_separators == TermSeparator::PlusSign {
        FormatOptions { ignore_sign: true, ..o1 }
    } else {
        o1
    };
    let f2 = if o2.term_separators == TermSeparator::PlusSign {
        FormatOptions { ignore_sign: true, ..o2 }
    } else {
        o2
    };
    lemma_content_pair_out(pairs[0].0, pairs[0].1, f1, f2);
    lemma_content_tail(pairs, 1, f1, o1.term_separators, f2, o2.term_separators);
}

/// The digit content of the term listing, named: the first term's
/// content followed by the tail's, all decoration dropped.
proof fn lemma_content_listing_one(pairs: Seq<(Expr, EvaluatedTerm)>, o: FormatOptions)
    requires
        pairs.len() >= 1,
    ensures
        digit_content(crate::display::spec_listing(pairs, o)) == digit_content(
            crate::display::spec_pair_out(
                pairs[0].0,
                pairs[0].1,
                if o.term_separators == TermSeparator::PlusSign {
                    FormatOptions { ignore_sign: true, ..o }
                } else {
                    o
                },
            ),
        ) + digit_content(
            spec_listing_tail(
                pairs,
                1,
                if o.term_separators == TermSeparator::PlusSign {
                    FormatOptions { ignore_sign: true, ..o }
                } else {
                    o
                },
                o.term_separators,
            ),
        ),
{
    let f = if o.term_separators == TermSeparator::PlusSign {
        FormatOptions { ignore_sign: true, ..o }
    } else {
        o
    };
    let lead: Seq<char> = if o.term_separators == TermSeparator::PlusSign
        && pairs[0].1.spec_sign() == Sign::Negative {
        seq!['-']
    } else {
        Seq::empty()
    };
    let first = crate::display::spec_pair_out(pairs[0].0, pairs[0].1, f);
    let rest = spec_listing_tail(pairs, 1, f, o.term_separators);
    let body = lead + first + rest;
    lemma_content_no_digits(lead);
    lemma_content_add(lead + first, rest);
    lemma_content_add(lead, first);
    if o.term_list_parentheses {
        lemma_content_add(seq!['('] + body, seq![')']);
        lemma_content_add(seq!['('], body);
        lemma_content_no_digits(seq!['(']);
        lemma_content_no_digits(seq![')']);
        assert(crate::display::spec_listing(pairs, o) == seq!['('] + body + seq![')']);
        assert(Seq::<char>::empty() + (Seq::<char>::empty() + digit_content(first) + digit_content(
            rest,
        )) + Seq::<char>::empty() =~= digit_content(first) + digit_content(rest));
    } else {
        assert(Seq::<char>::empty() + digit_content(first) + digit_content(rest) =~= digit_content(
            first,
        ) + digit_content(rest));
    }
}

/// Rendering under the old-style options — the total on the left,
/// terms separated by commas — shows exactly the same numeric values
/// as the default rendering: the total's digits, where the default
/// suppresses them, followed by the very digits the default shows for
/// the terms. Only separators and the total's position differ.
#[verifier::rlimit(60)]
#[verifier::spinoff_prover]
pub proof fn lemma_old_style_shows_same_values(pairs: Seq<(Expr, EvaluatedTerm)>, total: i64)
    requires
        pairs.len() >= 1,
    ensures
        crate::display::spec_listing_p(pairs) ==> digit_content(
            spec_format(pairs, total as int, old_style()),
        ) == dec_digits(
            if total < 0 {
                -(total as int)
            } else {
                total as int
            },
        ) + digit_content(spec_format(pairs, total as int, FormatOptions::spec_default())),
        !crate::display::spec_listing_p(pairs) ==> digit_content(
            spec_format(pairs, total as int, old_style()),
        ) == digit_content(spec_format(pairs, total as int, FormatOptions::spec_default())),
{
    let a = FormatOptions::spec_default();
    let b = old_style();
    let tot = total as int;
    let m = if total < 0 {
        -tot
    } else {
        tot
    };
    lemma_content_fmt_i64(tot, false);
    if crate::display::spec_listing_p(pairs) {
        let total_sep = seq![' ', '=', ' '];
        lemma_content_no_digits(total_sep);
        let left = dec_int(tot) + total_sep;
        lemma_content_add(dec_int(tot), total_sep);
        assert(spec_format(pairs, tot, b) == left + crate::display::spec_listing(pairs, b));
        lemma_content_add(left, crate::display::spec_listing(pairs, b));
        assert(spec_format(pairs, tot, a) =~= crate::display::spec_listing(pairs, a)) by {
            assert(Seq::<char>::empty() + crate::display::spec_listing(pairs, a)
                =~= crate::display::spec_listing(pairs, a));
        }
        lemma_content_listing(pairs, a, b);
        assert(digit_content(left) =~= dec_digits(m)) by {
            assert(dec_digits(m) + Seq::<char>::empty() =~= dec_digits(m));
        }
    } else {
        assert(spec_format(pairs, tot, a) == dec_int(tot));
        assert(spec_format(pairs, tot, b) =~= dec_int(tot)) by {
            assert(dec_int(tot) + Seq::<char>::empty() =~= dec_int(tot));
        }
    }
}

} // verus!
