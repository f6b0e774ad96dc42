//! The selector-template span expander used to check corpus selectors:
//! every string a selector with `{{ if }}`/`{{ else }}` spans can render to.

/// Why a call to [`expand_spans`] stopped consuming input.
enum Stop {
    /// Hit a `{{ else }}` belonging to an enclosing `{{ if }}`.
    Else,
    /// Hit a `{{ end }}` belonging to an enclosing `{{ if }}`.
    End,
    /// Ran out of input.
    Eof,
}

fn strip_template_spans(sel: &str) -> Vec<String> {
    let (mut variants, stop, remainder) = expand_spans(sel);
    if !matches!(stop, Stop::Eof) {
        // A stray `else`/`end` with no enclosing `if` at this level: keep
        // processing rather than silently dropping the remainder.
        let mut combined = Vec::new();
        for prefix in &variants {
            for suffix in strip_template_spans(remainder) {
                combined.push(format!("{prefix}{suffix}"));
            }
        }
        variants = combined;
    }
    variants
}

/// Consumes `s` up to (and past) the first `{{ else }}` or `{{ end }}` that
/// has no enclosing `{{ if }}` opened *within this call*, or to the end of
/// `s` if neither appears, returning every residual string reachable up to
/// that point. Every `{{ if COND }}` encountered is resolved recursively
/// before the scan continues, and its branch options are combined
/// (Cartesian-product style) with whatever was already accumulated.
fn expand_spans(s: &str) -> (Vec<String>, Stop, &str) {
    let mut variants = vec![String::new()];
    let mut rest = s;
    loop {
        let Some(start) = rest.find("{{") else {
            for v in &mut variants {
                v.push_str(rest);
            }
            return (variants, Stop::Eof, "");
        };
        let prefix = &rest[..start];
        for v in &mut variants {
            v.push_str(prefix);
        }
        let after_open = &rest[start + 2..];
        let Some(close) = after_open.find("}}") else {
            return (variants, Stop::Eof, "");
        };
        let action = after_open[..close].trim();
        let after_action = &after_open[close + 2..];

        if action == "else" {
            return (variants, Stop::Else, after_action);
        }
        if action == "end" {
            return (variants, Stop::End, after_action);
        }
        if action.starts_with("if") {
            let (then_variants, stop, remainder) = expand_spans(after_action);
            let (branch_options, remainder) = match stop {
                Stop::Else => {
                    let (else_variants, _stop, remainder) = expand_spans(remainder);
                    let mut options = then_variants;
                    for v in else_variants {
                        if !options.contains(&v) {
                            options.push(v);
                        }
                    }
                    (options, remainder)
                }
                Stop::End | Stop::Eof => {
                    // No `{{ else }}`: Go's template renders nothing for
                    // this block when the condition is false, which is
                    // just as reachable as the `if`-branch content, so it
                    // must be included as an option too.
                    let mut options = then_variants;
                    if !options.contains(&String::new()) {
                        options.push(String::new());
                    }
                    (options, remainder)
                }
            };
            let mut combined = Vec::with_capacity(variants.len() * branch_options.len().max(1));
            for prefix in &variants {
                for branch in &branch_options {
                    combined.push(format!("{prefix}{branch}"));
                }
            }
            variants = combined;
            rest = remainder;
        } else {
            // Any other bare action contributes nothing.
            rest = after_action;
        }
    }
}

#[test]
fn plain_text_has_a_single_residual() {
    assert_eq!(strip_template_spans("tr > td"), vec!["tr > td"]);
}

#[test]
fn bare_action_contributes_nothing() {
    assert_eq!(
        strip_template_spans(r"tr:contains({{ .Config.uploader }})"),
        vec!["tr:contains()"]
    );
}

#[test]
fn if_with_no_else_produces_the_branch_and_the_empty_alternative() {
    // `{{ if C }}A{{ end }}` renders to `A` when C is truthy and to
    // nothing when it isn't — both are reachable.
    let mut residuals = strip_template_spans("td{{ if .Config.x }}.a{{ end }}");
    residuals.sort();
    let mut expected = vec!["td".to_string(), "td.a".to_string()];
    expected.sort();
    assert_eq!(residuals, expected);
}

#[test]
fn if_else_produces_both_branches_not_their_concatenation() {
    // This is the regression case for the finding that the original
    // stripper discarded the `else` branch entirely: it must appear as
    // its own residual, and neither residual may contain both `A` and
    // `B` glued together (that string was never actually reachable at
    // render time).
    let residuals = strip_template_spans(
        "{{ if .Result._staff_edit }}td:nth-child(5) > span[title]{{ else }}td:nth-child(4) > span[title]{{ end }}",
    );
    assert!(residuals.contains(&"td:nth-child(5) > span[title]".to_string()));
    assert!(residuals.contains(&"td:nth-child(4) > span[title]".to_string()));
    assert_eq!(residuals.len(), 2);
    for residual in &residuals {
        assert!(!residual.contains("span[title]td"));
    }
}

#[test]
fn if_else_inside_attribute_value_produces_both_branches() {
    let residuals = strip_template_spans(
        r#"td:has(a[{{ if .Result._anchor1 }}href^="comment.php"{{ else }}href$="startcomments"{{ end }}])"#,
    );
    assert!(residuals.contains(&r#"td:has(a[href^="comment.php"])"#.to_string()));
    assert!(residuals.contains(&r#"td:has(a[href$="startcomments"])"#.to_string()));
    assert_eq!(residuals.len(), 2);
}

#[test]
fn multiple_constructs_combine() {
    let residuals = strip_template_spans(
        "{{ if .A }}x{{ else }}y{{ end }}-{{ if .B }}1{{ else }}2{{ end }}",
    );
    let mut residuals = residuals;
    residuals.sort();
    let mut expected = vec!["x-1", "x-2", "y-1", "y-2"];
    expected.sort_unstable();
    assert_eq!(residuals, expected);
}

#[test]
fn unterminated_if_drops_to_end_of_string_without_looping() {
    // No matching `{{ end }}`: nothing panics or hangs. Whatever was
    // accumulated inside the dangling `if` is still one option (`tr.a`);
    // since there's no `else` either, the block-renders-to-nothing
    // alternative (`tr`) is included too.
    let mut residuals = strip_template_spans("tr{{ if .Config.x }}.a");
    residuals.sort();
    let mut expected = vec!["tr".to_string(), "tr.a".to_string()];
    expected.sort();
    assert_eq!(residuals, expected);
}

#[test]
fn unterminated_span_drops_to_end_of_string_without_looping() {
    let residuals = strip_template_spans("tr{{ .Config.x");
    assert_eq!(residuals, vec!["tr"]);
}

#[test]
fn residual_selectors_compile() {
    let residuals = strip_template_spans(
        r#"td:has(a[{{ if .Result._anchor1 }}href^="comment.php"{{ else }}href$="startcomments"{{ end }}])"#,
    );
    for residual in residuals {
        assert!(oxidarr::selector::compile(&residual).is_ok(), "{residual}");
    }
}
