use oxidarr::error::CardigannError;
use oxidarr::selector::{
    compile, css_unescape, normalize_attribute_selectors, normalize_attribute_value,
    rewrite_not_equal, unquote, SelectorKind, TextPredicate,
};

#[test]
fn rewrite_not_equal_turns_bang_equals_into_not() {
    assert_eq!(
        rewrite_not_equal(r#"table[id!="torrent_ajanlo"] > tbody > tr[id]"#),
        r#"table:not([id="torrent_ajanlo"]) > tbody > tr[id]"#
    );
}

#[test]
fn rewrite_not_equal_ignores_bang_equals_inside_quotes() {
    assert_eq!(
        rewrite_not_equal(r#"div:contains("x!=y")[title!="z"]"#),
        r#"div:contains("x!=y"):not([title="z"])"#
    );
}

#[test]
fn normalize_attribute_value_quotes_bare_numeric_value() {
    assert_eq!(normalize_attribute_value("border=1"), r#"border="1""#);
    assert_eq!(normalize_attribute_value("href^=index"), "href^=index");
    assert_eq!(normalize_attribute_value(r#"border="1""#), r#"border="1""#);
}

#[test]
fn normalize_attribute_value_flattens_escaped_quote_only_value() {
    assert_eq!(
        normalize_attribute_value(r#"src$=\"/x.gif\""#),
        r#"src$="/x.gif""#
    );
}

#[test]
fn css_unescape_decodes_hex_escape() {
    assert_eq!(css_unescape(r"\00a0GB"), "\u{a0}GB");
    assert_eq!(css_unescape(r"\41 BC"), "ABC");
    assert_eq!(css_unescape(r#"\"quoted\""#), r#""quoted""#);
}

#[test]
fn unquote_applies_css_unescape_to_a_quoted_argument() {
    assert_eq!(unquote(r#""\00a0GB""#), "\u{a0}GB");
}

#[test]
fn css_unescape_of_a_surrogate_keeps_the_digits() {
    assert_eq!(css_unescape(r"\d800x"), "d800x");
}

#[test]
fn css_unescape_reads_at_most_six_hex_digits() {
    assert_eq!(css_unescape(r"\0000411"), "A1");
}

#[test]
fn css_unescape_drops_a_trailing_backslash() {
    assert_eq!(css_unescape("ab\\"), "ab");
}

#[test]
fn unquote_leaves_mismatched_quotes() {
    assert_eq!(unquote(r#""abc'"#), r#""abc'"#);
    assert_eq!(unquote("'x'"), "x");
}

#[test]
fn an_unclosed_bracket_is_kept_verbatim() {
    assert_eq!(rewrite_not_equal("a[b!=c"), "a[b!=c");
    assert_eq!(normalize_attribute_selectors("a[b=1"), "a[b=1");
}

#[test]
fn attribute_selectors_are_normalized_in_place() {
    assert_eq!(
        normalize_attribute_selectors(r#"table[border=1] td[class="x"]"#),
        r#"table[border="1"] td[class="x"]"#
    );
}

fn branches(raw: &str) -> Vec<(String, usize)> {
    match compile(raw).unwrap().kind {
        SelectorKind::Css(bs) => bs
            .iter()
            .map(|b| (b.css.source().to_string(), b.predicates.len()))
            .collect(),
        SelectorKind::JsonPath => panic!("not css"),
    }
}

#[test]
fn contains_is_lifted_out_of_the_css() {
    let c = compile("tr:contains(Bunny)").unwrap();
    match c.kind {
        SelectorKind::Css(bs) => {
            assert_eq!(bs.len(), 1);
            assert_eq!(bs[0].css.source(), "tr");
            match &bs[0].predicates[0] {
                TextPredicate::Contains { text, negate } => {
                    assert_eq!(text, "Bunny");
                    assert!(!negate);
                }
                _ => panic!("expected a contains predicate"),
            }
        }
        SelectorKind::JsonPath => panic!("not css"),
    }
}

#[test]
fn has_without_contains_is_kept_as_css() {
    assert_eq!(
        branches(r#"tr:has(a[href^="/torrent/"])"#),
        vec![(r#"tr:has(a[href^="/torrent/"])"#.to_string(), 0)]
    );
}

#[test]
fn not_contains_becomes_a_negated_predicate() {
    let c = compile(r#"tr:not(:contains("Sintel"))"#).unwrap();
    match c.kind {
        SelectorKind::Css(bs) => match &bs[0].predicates[0] {
            TextPredicate::Contains { text, negate } => {
                assert_eq!(text, "Sintel");
                assert!(*negate);
            }
            _ => panic!("expected a contains predicate"),
        },
        SelectorKind::JsonPath => panic!("not css"),
    }
}

#[test]
fn has_with_contains_becomes_a_descendant_predicate() {
    let c = compile("tr:has(td:contains(Sintel))").unwrap();
    match c.kind {
        SelectorKind::Css(bs) => {
            assert_eq!(bs[0].css.source(), "tr");
            match &bs[0].predicates[0] {
                TextPredicate::Descendant { css, nested, negate } => {
                    assert_eq!(css.source(), "td");
                    assert_eq!(nested.len(), 1);
                    assert!(!negate);
                }
                _ => panic!("expected a descendant predicate"),
            }
        }
        SelectorKind::JsonPath => panic!("not css"),
    }
}

#[test]
fn commas_split_branches_and_bare_contains_matches_everything() {
    assert_eq!(
        branches(r#"td.a, :contains("x,y")"#),
        vec![("td.a".to_string(), 0), ("*".to_string(), 1)]
    );
}

#[test]
fn invalid_css_is_an_error() {
    assert!(matches!(compile("tr:::bogus("), Err(CardigannError::Selector { .. }) | Err(CardigannError::UnbalancedContains { .. })));
    assert!(matches!(compile("td >"), Err(CardigannError::Selector { .. })));
}

#[test]
fn unclosed_contains_is_unbalanced() {
    match compile("tr:contains(abc") {
        Err(CardigannError::UnbalancedContains { selector }) => assert_eq!(selector, "tr:contains(abc"),
        _ => panic!("expected an unbalanced error"),
    }
}

#[test]
fn json_paths_are_recognised() {
    for p in ["$", "$.data", "$[0].id", "..title", "items[0].name", " $.a "] {
        assert!(compile(p).unwrap().is_json_path(), "{p}");
    }
    for p in ["tr.result", "td.name", "$", "a[href]"] {
        let c = compile(p).unwrap();
        assert_eq!(c.is_json_path(), p == "$", "{p}");
    }
}

#[test]
fn a_stray_leading_dollar_is_dropped() {
    assert_eq!(branches("$ tr"), vec![("tr".to_string(), 0)]);
}
