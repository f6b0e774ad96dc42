use oxidarr::client::{Body, Method};
use oxidarr::filters::FilterCtx;
use oxidarr::login::{
    check_cookie_setting, login_base_url, login_cookie_header, login_flow, login_page_request,
    login_test_passes, login_test_request, scrape_login_form, submit_request, test_outcome,
    test_selector_matches, upsert, LoginFailure, LoginFlow,
};
use oxidarr::model::{Caps, Definition, Field, Login, LoginTest, Rows, Search, Setting};
use oxidarr::query::{scope_for, SearchQuery, Settings};

fn login(method: Option<&str>) -> Login {
    Login {
        path: Some("takelogin.php".to_string()),
        method: method.map(|m| m.to_string()),
        inputs: vec![
            ("username".to_string(), "{{ .Config.username }}".to_string()),
            ("password".to_string(), "{{ .Config.password }}".to_string()),
        ],
        test: None,
        captcha: false,
        headers: vec![],
        cookies: vec![],
        error: vec![],
        selectorinputs: vec![],
        submitpath: None,
        form: None,
        selectors: false,
    }
}

fn setting(name: &str) -> Setting {
    Setting {
        name: name.to_string(),
        kind: "text".to_string(),
        label: name.to_string(),
        default: None,
        options: vec![],
    }
}

fn definition(login: Option<Login>) -> Definition {
    Definition {
        id: "example".to_string(),
        name: "Example".to_string(),
        description: String::new(),
        language: String::new(),
        kind: String::new(),
        encoding: String::new(),
        links: vec!["https://example.org/".to_string()],
        legacylinks: vec![],
        caps: Caps { categorymappings: vec![], modes: vec![] },
        settings: vec![setting("username"), setting("password"), setting("cookie")],
        search: Search {
            paths: vec![],
            path: None,
            inputs: vec![],
            allow_empty_inputs: false,
            keywordsfilters: vec![],
            headers: vec![],
            rows: Rows {
                selector: "tr".to_string(),
                attribute: None,
                filters: vec![],
                after: None,
                count: None,
            },
            fields: vec![],
            error: vec![],
        },
        login,
    }
}

fn settings() -> Settings {
    Settings::new(vec![
        ("username".to_string(), "alice".to_string()),
        ("password".to_string(), "hunter2".to_string()),
    ])
}

#[test]
fn no_login_block_is_ok_with_zero_requests() {
    assert_eq!(login_flow(&definition(None)), Ok(LoginFlow::Skip));
}

#[test]
fn captcha_present_is_needs_captcha_before_any_request() {
    let mut l = login(Some("post"));
    l.captcha = true;
    assert_eq!(login_flow(&definition(Some(l))), Err(LoginFailure::NeedsCaptcha));
}

#[test]
fn login_method_matching_is_case_insensitive() {
    let def = definition(Some(login(Some("POST"))));
    assert_eq!(login_flow(&def), Ok(LoginFlow::Submit(Method::Post)));
    let req = submit_request(&def, def.login.as_ref().unwrap(), &settings(), Method::Post).unwrap();
    assert_eq!(req.method, Method::Post);
    assert_eq!(req.url, "https://example.org/takelogin.php");
}

#[test]
fn other_method_spellings_are_matched_case_insensitively() {
    assert_eq!(login_flow(&definition(Some(login(Some("Get"))))), Ok(LoginFlow::Submit(Method::Get)));
    assert_eq!(login_flow(&definition(Some(login(Some("COOKIE"))))), Ok(LoginFlow::Cookie));
    assert_eq!(login_flow(&definition(Some(login(Some("form"))))), Ok(LoginFlow::Form));
}

const METHODLESS_PAGE: &str = r#"<html><body>
<form action="take_login.php">
<input type="hidden" name="formtoken" value="server-token">
</form>
</body></html>"#;

#[test]
fn methodless_login_routes_through_the_same_form_flow() {
    let mut l = login(None);
    l.path = Some("index.php?view=Main".to_string());
    l.inputs = vec![];
    l.selectorinputs = vec![(
        "formtoken".to_string(),
        Field {
            selector: Some("input[name=\"formtoken\"]".to_string()),
            attribute: Some("value".to_string()),
            remove: None,
            text: None,
            case: None,
            default: None,
            optional: false,
            filters: vec![],
        },
    )];
    l.test = Some(LoginTest {
        path: "/".to_string(),
        selector: Some("a[href^=\"index.php?view=Login\"]".to_string()),
    });
    let mut def = definition(Some(l));
    def.settings = vec![];
    let login = def.login.as_ref().unwrap();
    assert_eq!(login_flow(&def), Ok(LoginFlow::Form));

    let page = login_page_request(&def, login, &Settings::new(vec![])).unwrap();
    assert_eq!(page.method, Method::Get);
    assert_eq!(page.url, "https://example.org/index.php?view=Main");

    let scope = scope_for(&def.settings, &SearchQuery::default(), &Settings::new(vec![]), &[]);
    let (pairs, url) = scrape_login_form(
        login,
        METHODLESS_PAGE,
        "https://example.org/index.php?view=Main",
        &scope,
        &FilterCtx::fixed_for_tests(),
    )
    .unwrap();
    assert_eq!(pairs, vec![("formtoken".to_string(), "server-token".to_string())]);
    assert_eq!(url, "https://example.org/take_login.php");

    let base = login_base_url(&def).unwrap();
    let test = login_test_request(&base, login.test.as_ref().unwrap()).unwrap();
    assert_eq!(test.method, Method::Get);
    assert_eq!(test.url, "https://example.org/");
    let matched = test_selector_matches(
        "a[href^=\"index.php?view=Login\"]",
        r#"<a href="index.php?view=Login">Login</a>"#,
    )
    .unwrap();
    assert!(login_test_passes(200, Some(matched)));
}

#[test]
fn unknown_login_method_is_a_definition_error_naming_the_method() {
    assert_eq!(
        login_flow(&definition(Some(login(Some("oauth"))))),
        Err(LoginFailure::Definition("login method \"oauth\" not yet implemented".to_string()))
    );
}

#[test]
fn post_flow_sends_rendered_credentials_as_a_form_body() {
    let def = definition(Some(login(Some("post"))));
    let req = submit_request(&def, def.login.as_ref().unwrap(), &settings(), Method::Post).unwrap();
    assert_eq!(req.method, Method::Post);
    assert_eq!(req.url, "https://example.org/takelogin.php");
    assert_eq!(
        req.body,
        Some(Body::Form(vec![
            ("password".to_string(), "hunter2".to_string()),
            ("username".to_string(), "alice".to_string()),
        ]))
    );
}

#[test]
fn get_flow_puts_inputs_in_the_query() {
    let def = definition(Some(login(Some("get"))));
    let req = submit_request(&def, def.login.as_ref().unwrap(), &settings(), Method::Get).unwrap();
    assert_eq!(req.url, "https://example.org/takelogin.php?password=hunter2&username=alice");
    assert_eq!(req.body, None);
}

#[test]
fn missing_login_path_is_a_definition_error() {
    let mut l = login(Some("post"));
    l.path = None;
    let def = definition(Some(l));
    assert_eq!(
        submit_request(&def, def.login.as_ref().unwrap(), &settings(), Method::Post).unwrap_err(),
        LoginFailure::Definition("login block for example declares no path".to_string())
    );
}

#[test]
fn cookie_login_without_a_configured_cookie_value_is_a_definition_error() {
    let def = definition(Some(login(Some("cookie"))));
    assert_eq!(
        check_cookie_setting(&def, &settings()),
        Err(LoginFailure::Definition("cookie login requires the 'cookie' setting".to_string()))
    );
    let with_cookie = Settings::new(vec![("cookie".to_string(), "uid=1".to_string())]);
    assert_eq!(check_cookie_setting(&def, &with_cookie), Ok(()));
}

#[test]
fn login_cookies_join_into_one_cookie_header() {
    let mut l = login(Some("form"));
    assert_eq!(login_cookie_header(&l), None);
    l.cookies = vec!["JAVA=OK".to_string(), "lang=en".to_string()];
    assert_eq!(
        login_cookie_header(&l),
        Some(("Cookie".to_string(), "JAVA=OK; lang=en".to_string()))
    );
}

#[test]
fn upsert_replaces_in_place_or_appends() {
    let mut pairs = vec![("a".to_string(), "1".to_string()), ("b".to_string(), "2".to_string())];
    upsert(&mut pairs, "a", "9".to_string());
    upsert(&mut pairs, "c", "3".to_string());
    assert_eq!(
        pairs,
        vec![
            ("a".to_string(), "9".to_string()),
            ("b".to_string(), "2".to_string()),
            ("c".to_string(), "3".to_string()),
        ]
    );
}

#[test]
fn a_login_test_passes_by_selector_or_by_status() {
    assert!(login_test_passes(200, None));
    assert!(!login_test_passes(302, None));
    assert!(login_test_passes(500, Some(true)));
    assert!(!login_test_passes(200, Some(false)));
    assert_eq!(
        test_outcome(false),
        Err(LoginFailure::Rejected("login test failed".to_string()))
    );
}
