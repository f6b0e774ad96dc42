use oxidarr::filters::{apply, parse_filter, FilterCtx, FilterOutcome};

fn run(name: &str, args: &[&str], input: &str) -> String {
    run_ctx(name, args, input, &FilterCtx::fixed_for_tests())
}

fn run_ctx(name: &str, args: &[&str], input: &str, ctx: &FilterCtx) -> String {
    let args: Vec<String> = args.iter().map(|s| (*s).to_string()).collect();
    let f = parse_filter(name, &args).unwrap();
    match apply(&f, input, ctx).unwrap() {
        FilterOutcome::Value(v) => v,
        FilterOutcome::DropRow => {
            unreachable!("no filter in this test suite emits DropRow")
        }
    }
}

fn run_outcome(name: &str, args: &[&str], input: &str, ctx: &FilterCtx) -> FilterOutcome {
    let args: Vec<String> = args.iter().map(|s| (*s).to_string()).collect();
    let f = parse_filter(name, &args).unwrap();
    apply(&f, input, ctx).unwrap()
}

#[test]
fn apply_takes_context_and_wraps_plain_values() {
    let ctx = FilterCtx::fixed_for_tests();
    let out = apply(&parse_filter("toupper", &[]).unwrap(), "abc", &ctx).unwrap();
    assert_eq!(out, FilterOutcome::Value("ABC".into()));
}

#[test]
fn re_replace_substitutes_with_capture_groups() {
    assert_eq!(
        run("re_replace", &[r"(\d+)MB", "$1 megabytes"], "700MB"),
        "700 megabytes"
    );
}

#[test]
fn replace_is_literal() {
    assert_eq!(
        run("replace", &["-", " "], "big-buck-bunny"),
        "big buck bunny"
    );
}

#[test]
fn append_and_prepend() {
    assert_eq!(run("append", &[" GB"], "4"), "4 GB");
    assert_eq!(run("prepend", &["Size: "], "4"), "Size: 4");
}

#[test]
fn trim_removes_whitespace_by_default() {
    assert_eq!(run("trim", &[], "  hello  "), "hello");
}

#[test]
fn trim_removes_given_characters() {
    assert_eq!(run("trim", &["|"], "|hello|"), "hello");
}

#[test]
fn case_helpers() {
    assert_eq!(run("toupper", &[], "abc"), "ABC");
    assert_eq!(run("tolower", &[], "ABC"), "abc");
}

#[test]
fn split_takes_indexed_part() {
    assert_eq!(run("split", &["|", "1"], "a|b|c"), "b");
}

#[test]
fn regexp_extracts_first_group() {
    assert_eq!(run("regexp", &[r"(\d+) seeders"], "42 seeders"), "42");
}

#[test]
fn querystring_reads_a_parameter() {
    assert_eq!(run("querystring", &["id"], "/details.php?id=99&x=1"), "99");
}

#[test]
fn urlencode_and_urldecode_roundtrip() {
    // Matches .NET's `WebUtility.UrlEncode`, which is what Prowlarr's
    // own `urlencode` filter calls into: a space becomes `+`, not
    // `%20` (RFC 3986's `Uri.EscapeDataString` convention).
    assert_eq!(run("urlencode", &[], "a b"), "a+b");
    assert_eq!(run("urldecode", &[], "a+b"), "a b");
}

#[test]
fn urlencode_percent_encodes_tilde() {
    // RFC 3986 would leave `~` unescaped; .NET's safe set does not
    // include it, so it must come out as %7E.
    assert_eq!(run("urlencode", &[], "~"), "%7E");
}

#[test]
fn urlencode_leaves_bang_star_and_parens_unescaped() {
    // RFC 3986 would escape these; .NET's RFC-1738.4-minus-plus safe
    // set does not.
    assert_eq!(run("urlencode", &[], "!*()"), "!*()");
}

#[test]
fn urlencode_encodes_multi_byte_characters_as_utf8_percent_pairs() {
    // 'é' is U+00E9, UTF-8 bytes 0xC3 0xA9.
    assert_eq!(run("urlencode", &[], "é"), "%C3%A9");
}

#[test]
fn urlencode_escapes_a_literal_plus_so_it_cannot_be_mistaken_for_a_space() {
    // `+` is not in the safe set, so an actual `+` in the input must
    // itself be percent-encoded — otherwise it would be
    // indistinguishable from an encoded space on the way back.
    assert_eq!(run("urlencode", &[], "+"), "%2B");
}

#[test]
fn urldecode_treats_a_literal_plus_as_a_space() {
    assert_eq!(run("urldecode", &[], "a+b"), "a b");
}

#[test]
fn htmldecode_resolves_entities() {
    assert_eq!(run("htmldecode", &[], "a &amp; b"), "a & b");
}

#[test]
fn validfilename_strips_path_separators() {
    assert_eq!(run("validfilename", &[], "a/b:c"), "abc");
}

#[test]
fn diacritics_are_folded() {
    assert_eq!(run("diacritics", &[], "Amélie"), "Amelie");
}

#[test]
fn diacritics_fold_the_corpus_declared_languages() {
    // cs-CZ (sktorrent.yml): háčeks and the ring above.
    assert_eq!(
        run("diacritics", &[], "Příliš žluťoučký kůň"),
        "Prilis zlutoucky kun"
    );
    // pl-PL: ogonek, stroke, and dot-above.
    assert_eq!(
        run("diacritics", &[], "Zażółć gęślą jaźń"),
        "Zazolc gesla jazn"
    );
    // ro-RO: comma-below s/t, distinct from the cedilla forms.
    assert_eq!(run("diacritics", &[], "Șase ține pași"), "Sase tine pasi");
    // tr-TR: soft g, dotted/dotless i pair (note the case is retained:
    // 'İ' folds to 'I', 'ı' folds to 'i').
    assert_eq!(
        run("diacritics", &[], "İstanbul çöğüş ışık"),
        "Istanbul cogus isik"
    );
    // vi-VN: circumflex/horn base plus a stacked tone mark.
    assert_eq!(
        run("diacritics", &[], "Việt Nam đường phố"),
        "Viet Nam duong pho"
    );
}

#[test]
fn htmldecode_does_not_cascade_through_a_second_decode() {
    // A chained sequence of literal replacements would decode this
    // twice (first `&amp;` -> `&`, producing `&lt;`, then wrongly
    // decoding that `&lt;` too) and yield `<`. A single left-to-right
    // pass resolves only the outer `&amp;`, yielding the literal
    // string `&lt;` — the corpus (hdspace.yml) depends on this,
    // calling `htmldecode` twice deliberately to peel one level of
    // escaping per call.
    assert_eq!(run("htmldecode", &[], "&amp;lt;"), "&lt;");
}

#[test]
fn htmldecode_resolves_numeric_entities() {
    assert_eq!(run("htmldecode", &[], "&#65;"), "A");
    assert_eq!(run("htmldecode", &[], "&#x41;"), "A");
    assert_eq!(run("htmldecode", &[], "&#X41;"), "A");
}

#[test]
fn htmldecode_leaves_unrecognized_ampersands_alone() {
    assert_eq!(run("htmldecode", &[], "A & B; C"), "A & B; C");
    assert_eq!(run("htmldecode", &[], "Tom & Jerry"), "Tom & Jerry");
}

#[test]
fn split_negative_index_counts_from_the_end() {
    assert_eq!(run("split", &["|", "-1"], "a|b|c"), "c");
    assert_eq!(run("split", &["|", "-2"], "a|b|c"), "b");
}

#[test]
fn split_out_of_range_index_is_empty_not_a_panic() {
    // Too negative: even after adding the length back, still negative.
    assert_eq!(run("split", &["|", "-5"], "a|b|c"), "");
    // Too positive: at or beyond the number of parts.
    assert_eq!(run("split", &["|", "10"], "a|b|c"), "");
    assert_eq!(run("split", &["|", "3"], "a|b|c"), "");
}

#[test]
fn validate_keeps_a_whitelisted_token() {
    assert_eq!(
        run("validate", &["Action, Adventure, Comedy"], "Action"),
        "action"
    );
}

#[test]
fn validate_drops_a_token_not_on_the_whitelist() {
    assert_eq!(run("validate", &["Action, Adventure"], "Horror"), "");
}

#[test]
fn validate_trims_whitespace_around_entries() {
    assert_eq!(
        run("validate", &["Action, Adventure"], "  Action  "),
        "action"
    );
}

#[test]
fn validate_keeps_multiple_matches_in_whitelist_order() {
    // The data's own order ("Comedy Action") is not preserved; the
    // output follows the whitelist's order instead, matching
    // Prowlarr's `whitelist.Intersect(dataTokens)` (LINQ `Intersect`
    // yields elements in the first sequence's order).
    assert_eq!(
        run("validate", &["Action, Adventure, Comedy"], "Comedy Action"),
        "action, comedy"
    );
}

#[test]
fn andmatch_drops_rows_missing_a_keyword() {
    let mut ctx = FilterCtx::fixed_for_tests();
    ctx.keywords = vec!["ubuntu".into(), "server".into()];
    assert_eq!(
        run_outcome("andmatch", &[], "Ubuntu 24.04 Desktop", &ctx),
        FilterOutcome::DropRow
    );
    assert_eq!(
        run_outcome("andmatch", &[], "Ubuntu 24.04 Server", &ctx),
        FilterOutcome::Value("Ubuntu 24.04 Server".into())
    );
}

#[test]
fn andmatch_with_no_keywords_keeps_everything() {
    let ctx = FilterCtx::fixed_for_tests();
    assert_eq!(
        run_outcome("andmatch", &[], "anything", &ctx),
        FilterOutcome::Value("anything".into())
    );
}

#[test]
fn andmatch_matches_case_insensitively() {
    let mut ctx = FilterCtx::fixed_for_tests();
    ctx.keywords = vec!["UBUNTU".into()];
    assert_eq!(
        run_outcome("andmatch", &[], "ubuntu 24.04 server", &ctx),
        FilterOutcome::Value("ubuntu 24.04 server".into())
    );
}

#[test]
fn andmatch_character_limit_arg_bounds_which_keywords_must_match() {
    // Mirrors Jackett's `TorznabQuery.MatchQueryStringAND(title, limit)`
    // (the real engine behind Cardigann's `andmatch`, wired up through
    // `query.ImdbID`-style guards in `CardigannIndexer.cs`): `limit`
    // truncates the space-joined keyword string to its first N
    // characters BEFORE splitting it back into words, so it bounds
    // which keywords are required, not where in the input a keyword
    // must appear. Here only "ubu" (the first 3 characters of "ubuntu
    // server") is required, so a row missing "server" still matches.
    let mut ctx = FilterCtx::fixed_for_tests();
    ctx.keywords = vec!["ubuntu".into(), "server".into()];
    assert_eq!(
        run_outcome("andmatch", &["3"], "Ubuntu 24.04 Desktop", &ctx),
        FilterOutcome::Value("Ubuntu 24.04 Desktop".into())
    );
}

#[test]
fn andmatch_unparseable_arg_falls_back_to_no_limit() {
    let mut ctx = FilterCtx::fixed_for_tests();
    ctx.keywords = vec!["ubuntu".into(), "server".into()];
    assert_eq!(
        run_outcome("andmatch", &["not-a-number"], "Ubuntu 24.04 Desktop", &ctx),
        FilterOutcome::DropRow
    );
}

#[test]
fn timeago_subtracts_from_now() {
    let ctx = FilterCtx::fixed_for_tests();
    assert_eq!(
        run_ctx("timeago", &[], "3 hours ago", &ctx),
        "2026-01-15T09:00:00+00:00"
    );
    assert_eq!(
        run_ctx("timeago", &[], "1 day 2 hours ago", &ctx),
        "2026-01-14T10:00:00+00:00"
    );
}

#[test]
fn fuzzytime_handles_named_days() {
    let ctx = FilterCtx::fixed_for_tests();
    assert_eq!(
        run_ctx("fuzzytime", &[], "yesterday 08:15", &ctx),
        "2026-01-14T08:15:00+00:00"
    );
    assert_eq!(
        run_ctx("fuzzytime", &[], "Today at 10:32", &ctx),
        "2026-01-15T10:32:00+00:00"
    );
}

#[test]
fn timeago_with_an_overflowing_count_passes_through_without_panicking() {
    // Adversarial input: a count large enough to overflow chrono's
    // TimeDelta bounds must be treated as junk (pass through
    // unchanged), not panic the process.
    let ctx = FilterCtx::fixed_for_tests();
    assert_eq!(
        run_ctx("timeago", &[], "999999999999 days ago", &ctx),
        "999999999999 days ago"
    );
    assert_eq!(
        run_ctx("timeago", &[], "9223372036854775807 months ago", &ctx),
        "9223372036854775807 months ago"
    );
}

#[test]
fn fuzzytime_resolves_a_trailing_offset_like_miobt_does() {
    // Corpus shape (miobt.yml): after translating 今天/昨天 to
    // Today/Yesterday, `append " +08:00"` runs immediately before
    // `fuzzytime`, so the real input carries the tracker's fixed
    // local offset as a trailing suffix.
    let ctx = FilterCtx::fixed_for_tests();
    assert_eq!(
        run_ctx("fuzzytime", &[], "Today 00:35 +08:00", &ctx),
        "2026-01-14T16:35:00+00:00"
    );
}

#[test]
fn fuzzytime_passes_junk_through() {
    let ctx = FilterCtx::fixed_for_tests();
    assert_eq!(run_ctx("fuzzytime", &[], "soon™", &ctx), "soon™");
}

#[test]
fn dateparse_emits_rfc3339() {
    let ctx = FilterCtx::fixed_for_tests();
    assert_eq!(
        run_ctx(
            "dateparse",
            &["yyyy-MM-dd HH:mm:ss"],
            "2025-03-09 18:30:00",
            &ctx
        ),
        "2025-03-09T18:30:00+00:00"
    );
}

#[test]
fn dateparse_with_offset_keeps_the_offset() {
    let ctx = FilterCtx::fixed_for_tests();
    assert_eq!(
        run_ctx(
            "dateparse",
            &["yyyy-MM-dd HH:mm:ss zzz"],
            "2025-03-09 18:30:00 +02:00",
            &ctx
        ),
        "2025-03-09T16:30:00+00:00"
    );
}

#[test]
fn timeparse_fills_missing_date_from_ctx_now() {
    let ctx = FilterCtx::fixed_for_tests(); // 2026-01-15
    assert_eq!(
        run_ctx("timeparse", &["HH:mm"], "18:30", &ctx),
        "2026-01-15T18:30:00+00:00"
    );
}

#[test]
fn unparseable_date_passes_through() {
    let ctx = FilterCtx::fixed_for_tests();
    assert_eq!(run_ctx("dateparse", &["yyyy-MM-dd"], "n/a", &ctx), "n/a");
}

#[test]
fn dateparse_layout_advertising_an_offset_still_parses_a_value_without_one() {
    // Corpus layouts often end in `zzz`, but the scraped value
    // frequently omits the offset entirely. When the offset-aware
    // parse fails, the offset token is stripped from the format and
    // the value is retried naive, assumed UTC.
    let ctx = FilterCtx::fixed_for_tests();
    assert_eq!(
        run_ctx(
            "dateparse",
            &["yyyy-MM-dd HH:mm:ss zzz"],
            "2025-03-09 18:30:00",
            &ctx
        ),
        "2025-03-09T18:30:00+00:00"
    );
}

#[test]
fn timeparse_fractional_second_layout_parses_a_single_dot() {
    // KNOWN ISSUE: `net_layout_to_chrono` maps `fff` to `%.3f`, which
    // itself renders/expects a leading dot. A corpus layout written
    // `ss.fff` (a literal dot, then `fff`) would otherwise translate
    // to a doubled dot (`%S.%.3f`) that never matches a real value's
    // single dot — it must be collapsed before reaching chrono.
    let ctx = FilterCtx::fixed_for_tests();
    assert_eq!(
        run_ctx("timeparse", &["HH:mm:ss.fff"], "18:30:00.123", &ctx),
        "2026-01-15T18:30:00.123+00:00"
    );
}

#[test]
fn unknown_filter_is_an_error() {
    assert!(parse_filter("nonexistent", &[]).is_err());
}
