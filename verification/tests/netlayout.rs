use oxidarr::netlayout::net_layout_to_chrono;

#[test]
fn translates_common_corpus_layouts() {
    assert_eq!(
        net_layout_to_chrono("yyyy-MM-dd HH:mm:ss zzz").unwrap(),
        "%Y-%m-%d %H:%M:%S %:z"
    );
    assert_eq!(
        net_layout_to_chrono("ddd, dd MMM yyyy HH:mm:ss zzz").unwrap(),
        "%a, %d %b %Y %H:%M:%S %:z"
    );
    assert_eq!(
        net_layout_to_chrono("MMM d yyyy hh:mm tt").unwrap(),
        "%b %-d %Y %I:%M %p"
    );
    assert_eq!(net_layout_to_chrono("dd/MM/yyyy").unwrap(), "%d/%m/%Y");
}

#[test]
fn unknown_token_is_an_error_naming_it() {
    let err = net_layout_to_chrono("yyyy-QQ-dd").unwrap_err();
    assert!(err.to_string().contains("QQ"));
}

#[test]
fn unpadded_and_weekday_month_names_are_distinguished_from_padded_siblings() {
    // Exercises the single-letter family (day/hour24/hour12/minute/
    // second) and the full weekday/month names, none of which the two
    // required tests above touch.
    assert_eq!(
        net_layout_to_chrono("dddd, MMMM d H:h:m:s").unwrap(),
        "%A, %B %-d %-H:%-I:%-M:%-S"
    );
}

#[test]
fn two_digit_year_and_meridiem_tokens() {
    assert_eq!(
        net_layout_to_chrono("MM/dd/yy hh:mm tt").unwrap(),
        "%m/%d/%y %I:%M %p"
    );
}

#[test]
fn fractional_second_and_timezone_family() {
    assert_eq!(
        net_layout_to_chrono("HH:mm:ss.fff").unwrap(),
        "%H:%M:%S.%.3f"
    );
    // "zz" (2 z's) must not be misread as a partial match of "zzz" (3
    // z's), and "K" resolves independently of both.
    assert_eq!(net_layout_to_chrono("zzz zz K").unwrap(), "%:z %z %:z");
}

#[test]
fn quoted_literal_passes_through_unchanged() {
    // The canonical ISO-8601-with-literal-T .NET format.
    assert_eq!(
        net_layout_to_chrono("yyyy-MM-dd'T'HH:mm:ss").unwrap(),
        "%Y-%m-%dT%H:%M:%S"
    );
}

#[test]
fn unterminated_quote_takes_the_rest_of_the_layout_as_literal() {
    assert_eq!(net_layout_to_chrono("yyyy'oops").unwrap(), "%Yoops");
}

#[test]
fn escaped_letter_is_literal_not_a_token() {
    // Without the escape, "h" would be read as the unpadded 12-hour
    // token; escaped, it is just the letter h.
    assert_eq!(net_layout_to_chrono(r"HH\hmm").unwrap(), "%Hh%M");
}

#[test]
fn trailing_backslash_with_nothing_to_escape_is_a_literal_backslash() {
    assert_eq!(net_layout_to_chrono(r"dd\").unwrap(), "%d\\");
}

#[test]
fn literal_percent_is_escaped() {
    assert_eq!(net_layout_to_chrono("100%").unwrap(), "100%%");
}

#[test]
fn percent_inside_a_quoted_literal_is_still_escaped() {
    assert_eq!(net_layout_to_chrono("'100%'").unwrap(), "100%%");
}

#[test]
fn non_letter_separators_pass_through_verbatim() {
    // Bare letters are not exempt from token lookup (a lone unquoted
    // "a" would itself be an unrecognized letter run — see the test
    // above), so this deliberately covers only punctuation and
    // whitespace, which is what "non-letter separator" means here.
    assert_eq!(net_layout_to_chrono(", - / : ").unwrap(), ", - / : ");
}

#[test]
fn unrecognized_run_length_of_a_known_letter_is_an_error() {
    // "tt" is valid but "ttt" is not — .NET's AM/PM designator is only
    // ever one or two characters.
    let err = net_layout_to_chrono("ttt").unwrap_err();
    assert!(err.to_string().contains("ttt"));
}

#[test]
fn single_t_is_not_a_token() {
    let err = net_layout_to_chrono("t").unwrap_err();
    assert_eq!(
        err.to_string(),
        "invalid definition: unrecognized letter run \"t\" in time layout \"t\""
    );
}

#[test]
fn empty_layout_is_empty_format() {
    assert_eq!(net_layout_to_chrono("").unwrap(), "");
}

#[test]
fn error_message_escapes_the_layout() {
    let err = net_layout_to_chrono("Q\\").unwrap_err();
    assert!(err.to_string().contains("\"Q\\\\\""));
}

#[test]
fn escaped_percent_is_still_escaped() {
    assert_eq!(net_layout_to_chrono("\\%").unwrap(), "%%");
}

#[test]
fn punctuation_only_layout_is_kept_with_percent_doubled() {
    assert_eq!(net_layout_to_chrono(", - / : ").unwrap(), ", - / : ");
    assert_eq!(net_layout_to_chrono("50% / 100%").unwrap(), "50%% / 100%%");
}
