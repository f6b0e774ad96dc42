use oxidarr::template::{render, Scope};

fn scope() -> Scope {
    let mut s = Scope::new();
    s.set_keywords("big buck bunny");
    s.set_config("sort", "seeders");
    s.set_result("title_optional", "Sintel");
    s
}

#[test]
fn literal_text_passes_through() {
    assert_eq!(render("/search/", &scope()).unwrap(), "/search/");
}

#[test]
fn substitutes_keywords() {
    assert_eq!(
        render("search/{{ .Keywords }}", &scope()).unwrap(),
        "search/big buck bunny"
    );
}

#[test]
fn substitutes_config_and_result() {
    assert_eq!(render("{{ .Config.sort }}", &scope()).unwrap(), "seeders");
    assert_eq!(
        render("{{ .Result.title_optional }}", &scope()).unwrap(),
        "Sintel"
    );
}

#[test]
fn unknown_variable_is_empty() {
    assert_eq!(render("{{ .Config.missing }}", &scope()).unwrap(), "");
}

#[test]
fn if_else_end_picks_the_true_branch() {
    assert_eq!(
        render(
            "{{ if .Keywords }}search{{ else }}browse{{ end }}",
            &scope()
        )
        .unwrap(),
        "search"
    );
}

#[test]
fn if_else_end_picks_the_false_branch() {
    let s = Scope::new();
    assert_eq!(
        render("{{ if .Keywords }}search{{ else }}browse{{ end }}", &s).unwrap(),
        "browse"
    );
}

#[test]
fn or_returns_first_non_empty() {
    assert_eq!(
        render("{{ or .Config.missing .Config.sort }}", &scope()).unwrap(),
        "seeders"
    );
}

#[test]
fn eq_compares_values() {
    assert_eq!(
        render(
            "{{ if eq .Config.sort .Config.sort }}same{{ else }}diff{{ end }}",
            &scope()
        )
        .unwrap(),
        "same"
    );
}

#[test]
fn and_requires_both() {
    let s = Scope::new();
    assert_eq!(
        render(
            "{{ if and .Keywords .Config.sort }}y{{ else }}n{{ end }}",
            &s
        )
        .unwrap(),
        "n"
    );
}

#[test]
fn unclosed_block_is_an_error() {
    assert!(render("{{ if .Keywords }}oops", &scope()).is_err());
}

// --- Extensions beyond the brief's ten tests, driven by corpus forms ---

fn categorised_scope() -> Scope {
    let mut s = scope();
    s.set_categories(&["2000", "2010"]);
    s
}

#[test]
fn range_over_categories_binds_the_loop_item_to_dot() {
    // The real corpus form, e.g. bibliotik.yml: `cat[]={{.}}&`.
    assert_eq!(
        render(
            "{{ range .Categories }}cat[]={{.}}&{{end}}",
            &categorised_scope()
        )
        .unwrap(),
        "cat[]=2000&cat[]=2010&"
    );
}

#[test]
fn range_over_empty_categories_produces_nothing() {
    assert_eq!(
        render("{{ range .Categories }}cat[]={{.}}&{{end}}", &scope()).unwrap(),
        ""
    );
}

#[test]
fn join_categories_with_separator() {
    // e.g. aidoruonline.yml: `{{ join .Categories "," }}`.
    assert_eq!(
        render(r#"{{ join .Categories "," }}"#, &categorised_scope()).unwrap(),
        "2000,2010"
    );
}

#[test]
fn categories_are_truthy_only_when_non_empty() {
    assert_eq!(
        render(
            "{{ if .Categories }}y{{ else }}n{{ end }}",
            &categorised_scope()
        )
        .unwrap(),
        "y"
    );
    assert_eq!(
        render("{{ if .Categories }}y{{ else }}n{{ end }}", &scope()).unwrap(),
        "n"
    );
}

#[test]
fn re_replace_substitutes_with_backreferences() {
    // e.g. amigosshare.yml: `{{ re_replace .Keywords "[\s]+" "%" }}`.
    let mut s = Scope::new();
    s.set_keywords("big  buck bunny");
    assert_eq!(
        render(r#"{{ re_replace .Keywords "\s+" "%" }}"#, &s).unwrap(),
        "big%buck%bunny"
    );
}

#[test]
fn re_replace_with_capture_group_backreference() {
    // e.g. arabtorrents.yml's `$1` backreference form.
    let mut s = Scope::new();
    s.set_config("sort", "download-torrent-42-extra");
    assert_eq!(
        render(
            r#"{{ re_replace .Config.sort ".*download-torrent-(\d+).*" "$1" }}"#,
            &s
        )
        .unwrap(),
        "42"
    );
}

#[test]
fn re_replace_with_invalid_pattern_is_an_error() {
    assert!(render(r#"{{ re_replace .Keywords "(" "x" }}"#, &scope()).is_err());
}

#[test]
fn parenthesised_and_of_nested_eq_and_ne() {
    // e.g. the corpus's `and (.Result._releaseGroup) (ne ... "NULL")`
    // and 1337x.yml's `and (.Keywords) (eq .Config.disablesort .False)`
    // idioms: `and`/`or` arguments are themselves full expressions when
    // parenthesised, not just bare variable paths. An unset checkbox
    // config value is the empty string, i.e. equal to `.False`.
    let mut s = scope();
    s.set_config("disablesort", "");
    assert_eq!(
        render(
            "{{ if and (.Keywords) (eq .Config.disablesort .False) }}y{{ else }}n{{ end }}",
            &s
        )
        .unwrap(),
        "y"
    );
    s.set_config("disablesort", "true");
    assert_eq!(
        render(
            "{{ if and (.Keywords) (eq .Config.disablesort .False) }}y{{ else }}n{{ end }}",
            &s
        )
        .unwrap(),
        "n"
    );
}

#[test]
fn ne_compares_for_inequality() {
    // `ne` is not in the brief's stated function list but appears
    // throughout the corpus in the same idiom as `eq` (e.g.
    // `and (.Result._releaseGroup) (ne .Result._releaseGroup "NULL")`);
    // implementing it as `eq`'s negation is the natural reading.
    let mut s = Scope::new();
    s.set_result("group", "NULL");
    assert_eq!(
        render(
            r#"{{ if ne .Result.group "NULL" }}y{{ else }}n{{ end }}"#,
            &s
        )
        .unwrap(),
        "n"
    );
    s.set_result("group", "SPARKS");
    assert_eq!(
        render(
            r#"{{ if ne .Result.group "NULL" }}y{{ else }}n{{ end }}"#,
            &s
        )
        .unwrap(),
        "y"
    );
}

#[test]
fn deeply_nested_and_or_eq() {
    // e.g. the corpus's `or (eq ...) (or (eq ...) (or ...))` chains.
    let mut s = Scope::new();
    s.set_result("a", "no");
    s.set_result("b", "yes");
    assert_eq!(
        render(
            r#"{{ if or (eq .Result.a "yes") (or (eq .Result.b "yes") (eq .Result.c "yes")) }}y{{ else }}n{{ end }}"#,
            &s
        )
        .unwrap(),
        "y"
    );
}

#[test]
fn unbalanced_parentheses_in_condition_is_an_error() {
    // A real corpus typo (1337x.yml's TV path): a stray extra `)`.
    assert!(
        render(
            "{{ if and (.Keywords) (eq .Config.disablesort .False)) }}y{{ end }}",
            &scope()
        )
        .is_err()
    );
}

#[test]
fn false_is_empty_and_true_is_non_empty() {
    assert_eq!(render("{{ .False }}", &scope()).unwrap(), "");
    assert_eq!(render("{{ .True }}", &scope()).unwrap(), "True");
}

#[test]
fn false_and_true_round_trip_through_the_corpus_case_idiom() {
    // The real shape (e.g. blutopia-api.yml:143-149, nobs.yml:135-141):
    // a `case:` block resolves a raw boolean field to `{{ .False }}` or
    // `{{ .True }}`, and the resolved value is stored back into a
    // `.Result.*` field, which a *later*, separate template then
    // checks with a bare `{{ if ... }}`. Only rendering `.False` in
    // isolation (as the previous test does) cannot catch a regression
    // where `.False` is non-empty: that would make the `if` below
    // always take the truthy branch regardless of which case matched.
    // This test replicates both halves of that pipeline end to end.
    let false_case_value = render("{{ .False }}", &scope()).unwrap();
    let mut s = scope();
    s.set_result("_internal", &false_case_value);
    assert_eq!(
        render("{{ if .Result._internal }}Internal{{ else }}{{ end }}", &s).unwrap(),
        ""
    );

    let true_case_value = render("{{ .True }}", &scope()).unwrap();
    let mut s = scope();
    s.set_result("_internal", &true_case_value);
    assert_eq!(
        render("{{ if .Result._internal }}Internal{{ else }}{{ end }}", &s).unwrap(),
        "Internal"
    );
}

#[test]
fn unclosed_range_is_an_error() {
    assert!(render("{{ range .Categories }}cat={{.}}", &scope()).is_err());
}

#[test]
fn unsupported_directive_is_an_error() {
    assert!(render("{{ nosuchthing .Keywords }}", &scope()).is_err());
}

#[test]
fn parse_error_names_the_template() {
    let t = "{{ if .Keywords }}oops";
    match render(t, &scope()) {
        Err(oxidarr::error::CardigannError::Template { template, .. }) => assert_eq!(template, t),
        other => panic!("unexpected {other:?}"),
    }
}

#[test]
fn regex_error_names_the_pattern() {
    match render(r#"{{ re_replace .Keywords "(" "x" }}"#, &scope()) {
        Err(oxidarr::error::CardigannError::Template { template, reason }) => {
            assert_eq!(template, "(");
            assert!(reason.starts_with("invalid regular expression: "));
        }
        other => panic!("unexpected {other:?}"),
    }
}

#[test]
fn set_config_overwrites_an_earlier_value() {
    let mut s = Scope::new();
    s.set_config("sort", "a");
    s.set_config("sort", "b");
    assert_eq!(render("{{ .Config.sort }}", &s).unwrap(), "b");
}

#[test]
fn dot_outside_a_range_is_empty() {
    assert_eq!(render("[{{ . }}]", &scope()).unwrap(), "[]");
}

#[test]
fn join_of_a_single_category_has_no_separator() {
    let mut s = Scope::new();
    s.set_categories(&["5000"]);
    assert_eq!(render(r#"{{ join .Categories "," }}"#, &s).unwrap(), "5000");
}

#[test]
fn join_of_an_unknown_list_is_empty() {
    assert_eq!(render(r#"{{ join .Config.x "," }}"#, &scope()).unwrap(), "");
}

#[test]
fn eq_rendered_as_a_value_is_a_word() {
    assert_eq!(render(r#"{{ or (eq "a" "a") }}"#, &scope()).unwrap(), "true");
}

#[test]
fn if_without_else_renders_nothing_when_false() {
    assert_eq!(render("a{{ if .Config.none }}b{{ end }}c", &scope()).unwrap(), "ac");
}

#[test]
fn nested_range_and_if() {
    let mut s = Scope::new();
    s.set_categories(&["1", "2"]);
    assert_eq!(
        render(r#"{{ range .Categories }}{{ if eq . "2" }}[{{.}}]{{ end }}{{ end }}"#, &s).unwrap(),
        "[2]"
    );
}

#[test]
fn unclosed_action_is_an_error() {
    assert!(render("abc {{ .Keywords", &scope()).is_err());
}

#[test]
fn unterminated_string_in_condition_is_an_error() {
    assert!(render(r#"{{ if eq .Keywords "x }}y{{ end }}"#, &scope()).is_err());
}

#[test]
fn escaped_quote_in_string_literal() {
    assert_eq!(render(r#"{{ or "a\"b" }}"#, &scope()).unwrap(), "a\"b");
}

#[test]
fn text_without_actions_renders_as_itself_in_any_scope() {
    let t = "no actions here: { } }} {";
    assert_eq!(render(t, &Scope::new()).unwrap(), t);
    assert_eq!(render(t, &scope()).unwrap(), t);
}
