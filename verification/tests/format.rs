use mice::{roll, Error, FormatOptions, OverflowNegative, OverflowPositive};

#[test]
fn constants_render_plainly() {
    let r = roll("1 + 2 - 3").unwrap();
    assert_eq!(r.total(), 0);
    assert_eq!(r.format(FormatOptions::new()), "1 + 2 - 3");
    assert_eq!(r.format(FormatOptions::new().total_left()), "0 = 1 + 2 - 3");
    assert_eq!(r.format(FormatOptions::new().total_right()), "1 + 2 - 3 = 0");
    assert_eq!(r.format(FormatOptions::new().term_commas()), "1, 2, -3");
    assert_eq!(
        r.format(FormatOptions::new().total_left().term_commas()),
        "0 = 1, 2, -3"
    );
    assert_eq!(
        r.format(FormatOptions::new().term_list_parens()),
        "(1 + 2 - 3)"
    );
}

#[test]
fn single_term_renders_as_bare_total() {
    assert_eq!(roll("7").unwrap().format(FormatOptions::new()), "7");
    assert_eq!(roll("-7").unwrap().format(FormatOptions::new()), "-7");
    assert_eq!(roll("d1").unwrap().format(FormatOptions::new()), "1");
}

#[test]
fn dice_terms_show_their_faces() {
    let r = roll("2d1").unwrap();
    assert_eq!(r.format(FormatOptions::new()), "(2d1 \u{2192} 1 + 1)");
    assert_eq!(r.format(FormatOptions::new().concise()), "(2d1 \u{2192} 2)");
    assert_eq!(
        r.format(FormatOptions::new().no_term_parens()),
        "2d1 \u{2192} 1 + 1"
    );
    assert_eq!(
        r.format(FormatOptions::new().total_right()),
        "(2d1 \u{2192} 1 + 1) = 2"
    );
    let s = roll("5 - 2d1").unwrap();
    assert_eq!(s.total(), 3);
    assert_eq!(s.format(FormatOptions::new()), "5 - (2d1 \u{2192} 1 + 1)");
    assert_eq!(
        s.format(FormatOptions::new().term_commas()),
        "5, (-2d1 \u{2192} -1 - 1)"
    );
}

#[test]
fn option_defaults_and_inverses() {
    let r = roll("2d1 + 3").unwrap();
    let base = FormatOptions::new();
    assert_eq!(r.format(FormatOptions::default()), r.format(base));
    assert_eq!(
        r.format(base.total_left().no_total()),
        r.format(base)
    );
    assert_eq!(r.format(base.concise().verbose()), r.format(base));
    assert_eq!(r.format(base.term_commas().term_pluses()), r.format(base));
    assert_eq!(
        r.format(base.no_term_parens().dice_parens()),
        r.format(base)
    );
    assert_eq!(
        r.format(base.term_list_parens().no_term_list_parens()),
        r.format(base)
    );
    assert_eq!(r.format(base), "(2d1 \u{2192} 1 + 1) + 3");
}

#[test]
fn overflow_errors_flip_direction() {
    assert_eq!(
        Error::OverflowPositive(OverflowPositive).flip(),
        Error::OverflowNegative(OverflowNegative)
    );
    assert_eq!(
        Error::OverflowNegative(OverflowNegative).flip(),
        Error::OverflowPositive(OverflowPositive)
    );
    assert_eq!(Error::InvalidDie.flip(), Error::InvalidDie);
}

#[test]
fn display_matches_default_format() {
    let r = roll("2d6 + 3").unwrap();
    assert_eq!(r.display(), r.format(FormatOptions::new()));
}

#[test]
fn rendering_round_trips_through_parse() {
    // Parsing the default rendering of an all-constant result
    // reproduces its total.
    for input in ["5 + 3", "1 + 2 - 3", "-4 + 9", "7", "-7", "0 - 0"] {
        let r = roll(input).unwrap();
        let rendered = r.format(FormatOptions::new());
        let reparsed = roll(&rendered).unwrap();
        assert_eq!(reparsed.total(), r.total());
    }
}

#[test]
fn alternate_options_show_the_same_values() {
    // The old-style rendering differs from the default only in
    // separators and in where the total stands: the digits shown for
    // the terms are the same.
    let digits = |s: &str| -> Vec<String> {
        let mut runs = Vec::new();
        let mut cur = String::new();
        for c in s.chars() {
            if c.is_ascii_digit() {
                cur.push(c);
            } else if !cur.is_empty() {
                runs.push(core::mem::take(&mut cur));
            }
        }
        if !cur.is_empty() {
            runs.push(cur);
        }
        runs
    };
    for input in ["2d6 + 3", "1 + 2 - 3", "3d4 - d6 + 10"] {
        let r = roll(input).unwrap();
        let plain = r.format(FormatOptions::new());
        let old = r.format(FormatOptions::new().total_left().term_commas());
        let mut expected = digits(&r.total().abs().to_string());
        expected.extend(digits(&plain));
        assert_eq!(digits(&old), expected);
    }
}
