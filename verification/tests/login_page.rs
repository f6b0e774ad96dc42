use oxidarr::dom::Document;
use oxidarr::filters::FilterCtx;
use oxidarr::client::{Body, Method};
use oxidarr::login::{
    check_error_rules, evaluate_login_field, form_post_request, scrape_login_form,
    test_selector_matches, LoginFailure,
};
use oxidarr::model::{ErrorRule, Field, FilterArgs, FilterSpec, Login, Setting};
use oxidarr::query::{scope_for, SearchQuery, Settings};

fn rule(selector: &str) -> ErrorRule {
    ErrorRule {
        selector: selector.to_string(),
        message: None,
    }
}

fn field() -> Field {
    Field {
        selector: None,
        attribute: None,
        remove: None,
        text: None,
        case: None,
        default: None,
        optional: false,
        filters: vec![],
    }
}

#[test]
fn matching_rule_rejects_with_the_matched_elements_own_text() {
    let body = r#"<html><body><div class="error">Wrong password</div></body></html>"#;
    let err = check_error_rules(&[rule("div.error")], body).unwrap_err();
    assert_eq!(err, LoginFailure::Rejected("Wrong password".to_string()));
}

#[test]
fn clean_page_is_ok() {
    let body = r#"<html><body><div class="welcome">Hi there</div></body></html>"#;
    assert!(check_error_rules(&[rule("div.error")], body).is_ok());
}

#[test]
fn no_rules_is_ok() {
    let body = r#"<html><body><div class="error">Wrong password</div></body></html>"#;
    assert!(check_error_rules(&[], body).is_ok());
}

#[test]
fn first_matching_rule_wins() {
    let body = r#"<html><body><div class="error">Wrong password</div></body></html>"#;
    let rules = vec![rule("div.missing"), rule("div.error")];
    let err = check_error_rules(&rules, body).unwrap_err();
    assert_eq!(err, LoginFailure::Rejected("Wrong password".to_string()));
}

#[test]
fn message_selector_reads_a_nested_elements_text() {
    let body = r#"<html><body>
            <div class="error"><span class="msg">Bad credentials</span></div>
        </body></html>"#;
    let mut r = rule("div.error");
    r.message = Some(Field {
        selector: Some("span.msg".to_string()),
        ..field()
    });
    let err = check_error_rules(&[r], body).unwrap_err();
    assert_eq!(err, LoginFailure::Rejected("Bad credentials".to_string()));
}

#[test]
fn message_text_is_used_literally() {
    let body = r#"<html><body><div class="error">ignored</div></body></html>"#;
    let mut r = rule("div.error");
    r.message = Some(Field {
        text: Some("Custom rejection message".to_string()),
        ..field()
    });
    let err = check_error_rules(&[r], body).unwrap_err();
    assert_eq!(err, LoginFailure::Rejected("Custom rejection message".to_string()));
}

#[test]
fn jquery_contains_dialect_is_understood() {
    let body = r#"<html><body><div class="maintitle">Ошибка входа</div></body></html>"#;
    let err = check_error_rules(&[rule(r#"div.maintitle:contains("Ошибка")"#)], body).unwrap_err();
    assert_eq!(err, LoginFailure::Rejected("Ошибка входа".to_string()));
}

#[test]
fn unparseable_selector_is_a_definition_error() {
    let err = check_error_rules(&[rule("div:::bogus(")], "<html></html>").unwrap_err();
    assert!(matches!(err, LoginFailure::Definition(_)));
}

#[test]
fn a_json_path_error_rule_is_a_definition_error_naming_it() {
    let err = check_error_rules(&[rule("$.error")], "<html></html>").unwrap_err();
    assert_eq!(
        err,
        LoginFailure::Definition(
            "selector \"$.error\" is a JSON field path; login checks only understand HTML".to_string()
        )
    );
}

#[test]
fn evaluate_login_field_maps_a_dropped_row_outcome_to_a_definition_error_naming_the_field() {
    let doc = Document::parse(r#"<html><body><div id="token">abc</div></body></html>"#);
    let root = doc.root();
    let f = Field {
        selector: Some("#token".to_string()),
        filters: vec![FilterSpec {
            name: "andmatch".to_string(),
            args: FilterArgs::Empty,
        }],
        ..field()
    };
    let mut ctx = FilterCtx::fixed_for_tests();
    ctx.keywords = vec!["missing-keyword".to_string()];
    let err = evaluate_login_field("csrf", &f, &doc, root, &ctx).unwrap_err();
    assert_eq!(
        err,
        LoginFailure::Definition(
            "selectorinputs field \"csrf\"'s filter chain dropped it; a login field cannot be dropped"
                .to_string()
        )
    );
}

#[test]
fn a_login_field_reads_an_attribute_or_text_and_falls_back_to_its_default() {
    let doc = Document::parse(
        r#"<html><body><input id="t" value="tok"><div id="d">text</div></body></html>"#,
    );
    let root = doc.root();
    let ctx = FilterCtx::fixed_for_tests();
    let by_attr = Field {
        selector: Some("#t".to_string()),
        attribute: Some("value".to_string()),
        ..field()
    };
    assert_eq!(evaluate_login_field("a", &by_attr, &doc, root, &ctx).unwrap(), "tok");
    let by_text = Field {
        selector: Some("#d".to_string()),
        ..field()
    };
    assert_eq!(evaluate_login_field("b", &by_text, &doc, root, &ctx).unwrap(), "text");
    let missing = Field {
        selector: Some("#none".to_string()),
        default: Some("fallback".to_string()),
        ..field()
    };
    assert_eq!(evaluate_login_field("c", &missing, &doc, root, &ctx).unwrap(), "fallback");
}

#[test]
fn a_login_test_selector_matches_the_page_or_not() {
    let page = r#"<html><body><a href="/logout">Logout</a></body></html>"#;
    assert_eq!(test_selector_matches(r#"a[href="/logout"]"#, page), Ok(true));
    assert_eq!(test_selector_matches(r#"a[href="/login"]"#, page), Ok(false));
}

const LOGIN_FORM_HTML: &str = r#"<html><body>
<form action="/take_login" method="post">
  <input type="hidden" name="csrf_token" value="scraped-csrf-value">
  <input type="text" name="username" value="">
  <input type="password" name="password">
  <input type="submit" name="submit" value="Login">
</form>
</body></html>"#;

fn setting(name: &str) -> Setting {
    Setting {
        name: name.to_string(),
        kind: "text".to_string(),
        label: name.to_string(),
        default: None,
        options: vec![],
    }
}

fn form_login() -> Login {
    Login {
        path: Some("login.php".to_string()),
        method: Some("form".to_string()),
        inputs: vec![
            ("username".to_string(), "{{ .Config.username }}".to_string()),
            ("password".to_string(), "{{ .Config.password }}".to_string()),
        ],
        test: None,
        captcha: false,
        headers: vec![],
        cookies: vec![],
        error: vec![],
        selectorinputs: vec![],
        submitpath: None,
        form: None,
        selectors: false,
    }
}

#[test]
fn form_login_scrapes_csrf_posts_credentials_then_verifies_the_session() {
    let decls = vec![setting("username"), setting("password")];
    let values = Settings::new(vec![
        ("username".to_string(), "alice".to_string()),
        ("password".to_string(), "hunter2".to_string()),
    ]);
    let scope = scope_for(&decls, &SearchQuery::default(), &values, &[]);
    let (pairs, url) = scrape_login_form(
        &form_login(),
        LOGIN_FORM_HTML,
        "https://example.org/login.php",
        &scope,
        &FilterCtx::fixed_for_tests(),
    )
    .unwrap();
    assert_eq!(
        pairs,
        vec![
            ("csrf_token".to_string(), "scraped-csrf-value".to_string()),
            ("username".to_string(), "alice".to_string()),
            ("password".to_string(), "hunter2".to_string()),
            ("submit".to_string(), "Login".to_string()),
        ]
    );
    assert_eq!(url, "https://example.org/take_login");
}

#[test]
fn a_page_without_the_form_is_a_definition_error_naming_the_selector() {
    let scope = scope_for(&[], &SearchQuery::default(), &Settings::new(vec![]), &[]);
    let mut login = form_login();
    login.form = Some("form#login".to_string());
    let err = scrape_login_form(&login, LOGIN_FORM_HTML, "https://example.org/", &scope, &FilterCtx::fixed_for_tests())
        .unwrap_err();
    assert_eq!(
        err,
        LoginFailure::Definition(
            "no form found on the login page using form selector \"form#login\"".to_string()
        )
    );
}

#[test]
fn selector_keyed_inputs_fill_the_named_element_and_submitpath_wins() {
    let scope = scope_for(&[], &SearchQuery::default(), &Settings::new(vec![]), &[]);
    let mut login = form_login();
    login.selectors = true;
    login.inputs = vec![("input[type=password]".to_string(), "pw".to_string())];
    login.submitpath = Some("/elsewhere".to_string());
    login.selectorinputs = vec![(
        "extra".to_string(),
        Field {
            text: Some("literal".to_string()),
            ..field()
        },
    )];
    let (pairs, url) = scrape_login_form(&login, LOGIN_FORM_HTML, "https://example.org/a/b", &scope, &FilterCtx::fixed_for_tests())
        .unwrap();
    assert_eq!(
        pairs,
        vec![
            ("csrf_token".to_string(), "scraped-csrf-value".to_string()),
            ("username".to_string(), String::new()),
            ("password".to_string(), "pw".to_string()),
            ("submit".to_string(), "Login".to_string()),
            ("extra".to_string(), "literal".to_string()),
        ]
    );
    assert_eq!(url, "https://example.org/elsewhere");
}

#[test]
fn form_post_carries_the_pairs_rendered_headers_and_cookies() {
    let decls = vec![setting("username")];
    let values = Settings::new(vec![("username".to_string(), "alice".to_string())]);
    let scope = scope_for(&decls, &SearchQuery::default(), &values, &[]);
    let mut login = form_login();
    login.headers = vec![("X-User".to_string(), vec!["{{ .Config.username }}".to_string()])];
    login.cookies = vec!["a=1".to_string(), "b=2".to_string()];
    let pairs = vec![("token".to_string(), "t0k".to_string())];
    let req = form_post_request(&login, &scope, pairs.clone(), "https://example.org/take".to_string()).unwrap();
    assert_eq!(req.method, Method::Post);
    assert_eq!(req.url, "https://example.org/take");
    assert_eq!(
        req.headers,
        vec![
            ("X-User".to_string(), "alice".to_string()),
            ("Cookie".to_string(), "a=1; b=2".to_string()),
        ]
    );
    assert_eq!(req.body, Some(Body::Form(pairs)));
    assert!(req.follow_redirects);
}
