use oxidarr::error::CardigannError;
use oxidarr::model::{
    Caps, Definition, Field, FilterArgs, FilterSpec, Rows, Search, SearchPath,
};
use oxidarr::validate::{check_selector, validate};

fn field(selector: Option<&str>) -> Field {
    Field {
        selector: selector.map(|s| s.to_string()),
        attribute: None,
        remove: None,
        text: None,
        case: None,
        default: None,
        optional: false,
        filters: vec![],
    }
}

fn definition(rows: &str, fields: Vec<(&str, Field)>, paths: Vec<SearchPath>) -> Definition {
    Definition {
        id: "example".to_string(),
        name: "Example".to_string(),
        description: String::new(),
        language: String::new(),
        kind: String::new(),
        encoding: String::new(),
        links: vec![],
        legacylinks: vec![],
        caps: Caps { categorymappings: vec![], modes: vec![] },
        settings: vec![],
        search: Search {
            paths,
            path: None,
            inputs: vec![],
            allow_empty_inputs: false,
            keywordsfilters: vec![],
            headers: vec![],
            rows: Rows {
                selector: rows.to_string(),
                attribute: None,
                filters: vec![],
                after: None,
                count: None,
            },
            fields: fields.into_iter().map(|(n, f)| (n.to_string(), f)).collect(),
            error: vec![],
        },
        login: None,
    }
}

fn path(p: &str, response: Option<&str>) -> SearchPath {
    SearchPath {
        path: p.to_string(),
        method: None,
        inputs: vec![],
        categories: vec![],
        response: response.map(|r| r.to_string()),
        followredirect: None,
    }
}

#[test]
fn a_sound_definition_validates() {
    let def = definition("tr.result", vec![("title", field(Some("td.name a")))], vec![path("browse", None)]);
    assert!(validate(&def).is_ok());
}

#[test]
fn templated_selectors_are_not_checked() {
    assert!(check_selector("{{ .Config.sel }} > a").is_ok());
    assert!(check_selector("div:contains(").is_err());
}

#[test]
fn the_first_problem_found_is_reported() {
    let mut bad = field(Some("a"));
    bad.filters = vec![FilterSpec { name: "nonexistent".to_string(), args: FilterArgs::Empty }];
    let def = definition("tr", vec![("title", bad), ("size", field(Some("td:contains(")))], vec![]);
    assert!(matches!(validate(&def), Err(CardigannError::UnknownFilter { .. })));
}

#[test]
fn case_keys_are_selectors_only_for_html_definitions() {
    let mut f = field(None);
    f.case = Some(vec![("td:contains(".to_string(), "x".to_string()), ("*".to_string(), "y".to_string())]);
    let html = definition("tr", vec![("title", f.clone())], vec![path("browse", None)]);
    assert!(matches!(validate(&html), Err(CardigannError::UnbalancedContains { .. })));
    let json = definition("data", vec![("title", f)], vec![path("api", Some("json"))]);
    assert!(validate(&json).is_ok());
    assert!(json.declares_json_response());
    assert!(!html.declares_json_response());
}

#[test]
fn a_templated_path_that_does_not_parse_is_an_error() {
    let def = definition("tr", vec![], vec![path("{{ if .Keywords }}search", None)]);
    assert!(matches!(validate(&def), Err(CardigannError::Template { .. })));
}
