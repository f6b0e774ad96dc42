use oxidarr::builder::{build_search_requests, RequestBuildError};
use oxidarr::client::{Body, HttpRequest, Method};
use oxidarr::model::{
    Caps, CategoryMapping, Definition, Field, Rows, Search, SearchPath, Setting,
};
use oxidarr::query::{SearchQuery, Settings};

fn path(p: &str) -> SearchPath {
    SearchPath {
        path: p.to_string(),
        method: None,
        inputs: vec![],
        categories: vec![],
        response: None,
        followredirect: None,
    }
}

fn gated(p: &str, cats: &[&str]) -> SearchPath {
    SearchPath {
        categories: cats.iter().map(|c| c.to_string()).collect(),
        ..path(p)
    }
}

fn pairs(items: &[(&str, &str)]) -> Vec<(String, String)> {
    items
        .iter()
        .map(|(k, v)| (k.to_string(), v.to_string()))
        .collect()
}

fn search(paths: Vec<SearchPath>, inputs: &[(&str, &str)]) -> Search {
    Search {
        paths,
        path: None,
        inputs: pairs(inputs),
        allow_empty_inputs: false,
        keywordsfilters: vec![],
        headers: vec![],
        rows: Rows {
            selector: "item".to_string(),
            attribute: None,
            filters: vec![],
            after: None,
            count: None,
        },
        fields: vec![(
            "title".to_string(),
            Field {
                selector: Some("a".to_string()),
                attribute: None,
                remove: None,
                text: None,
                case: None,
                default: None,
                optional: false,
                filters: vec![],
            },
        )],
        error: vec![],
    }
}

fn mapping(id: &str, cat: &str, desc: &str, default: bool) -> CategoryMapping {
    CategoryMapping {
        id: id.to_string(),
        cat: cat.to_string(),
        desc: desc.to_string(),
        default,
    }
}

fn definition(links: &[&str], mappings: Vec<CategoryMapping>, search: Search) -> Definition {
    Definition {
        id: "example".to_string(),
        name: "Example".to_string(),
        description: String::new(),
        language: String::new(),
        kind: String::new(),
        encoding: String::new(),
        links: links.iter().map(|l| l.to_string()).collect(),
        legacylinks: vec![],
        caps: Caps {
            categorymappings: mappings,
            modes: vec![],
        },
        settings: vec![],
        search,
        login: None,
    }
}

fn query(q: &str, categories: Vec<u32>) -> SearchQuery {
    SearchQuery {
        q: Some(q.to_string()),
        categories,
        ..SearchQuery::default()
    }
}

fn url_path(r: &HttpRequest) -> String {
    url::Url::parse(&r.url).unwrap().path().to_string()
}

fn minimal() -> Definition {
    definition(
        &["https://example.org/"],
        vec![],
        search(
            vec![path("browse")],
            &[("q", "{{ .Keywords }}"), ("cat", "{{ join .Categories \",\" }}")],
        ),
    )
}

#[test]
fn minimal_get_definition_renders_query_pairs_from_inputs() {
    let def = minimal();
    let q = query("ubuntu", vec![]);

    let requests = build_search_requests(&def, &q, &Settings::default()).unwrap();

    assert_eq!(requests.len(), 1);
    let req = &requests[0];
    assert_eq!(req.method, Method::Get);
    assert_eq!(req.body, None);
    assert_eq!(req.url.as_str(), "https://example.org/browse?q=ubuntu");
}

#[test]
fn a_post_path_yields_a_form_body_and_no_url_query() {
    let mut login = path("login");
    login.method = Some("post".to_string());
    let def = definition(
        &["https://example.org/"],
        vec![],
        search(vec![login], &[("q", "{{ .Keywords }}")]),
    );
    let q = query("ubuntu", vec![]);

    let requests = build_search_requests(&def, &q, &Settings::default()).unwrap();

    assert_eq!(requests.len(), 1);
    let req = &requests[0];
    assert_eq!(req.method, Method::Post);
    assert_eq!(req.url.as_str(), "https://example.org/login");
    assert_eq!(
        req.body,
        Some(Body::Form(vec![("q".to_string(), "ubuntu".to_string())]))
    );
}

fn category_def() -> Definition {
    definition(
        &["https://example.org/"],
        vec![
            mapping("1", "Movies", "Movies", true),
            mapping("2", "TV/SD", "TV SD", false),
            mapping("3", "TV", "TV block only", false),
        ],
        search(
            vec![
                path("browse"),
                gated("movies", &["1"]),
                gated("tv", &["2"]),
                gated("tv-block-only", &["3"]),
            ],
            &[("q", "{{ .Keywords }}"), ("cat", "{{ join .Categories \",\" }}")],
        ),
    )
}

fn sorted_paths(requests: &[HttpRequest]) -> Vec<String> {
    let mut paths: Vec<String> = requests.iter().map(url_path).collect();
    paths.sort_unstable();
    paths
}

#[test]
fn a_top_level_newznab_query_expands_to_every_tracker_id_mapped_under_it() {
    let def = category_def();
    let q = query("ubuntu", vec![5000]);

    let requests = build_search_requests(&def, &q, &Settings::default()).unwrap();

    assert_eq!(sorted_paths(&requests), vec!["/browse", "/tv", "/tv-block-only"]);
    let browse = requests.iter().find(|r| url_path(r) == "/browse").unwrap();
    let url = url::Url::parse(&browse.url).unwrap();
    assert_eq!(url.query(), Some("cat=2%2C3&q=ubuntu"));
}

#[test]
fn a_subcategory_newznab_query_does_not_reach_a_path_gated_on_a_block_only_tracker_mapping() {
    let def = category_def();
    let q = query("ubuntu", vec![5030]);

    let requests = build_search_requests(&def, &q, &Settings::default()).unwrap();

    assert_eq!(sorted_paths(&requests), vec!["/browse", "/tv"]);
}

#[test]
fn an_empty_query_falls_back_to_default_flagged_tracker_ids() {
    let def = category_def();
    let q = query("ubuntu", vec![]);

    let requests = build_search_requests(&def, &q, &Settings::default()).unwrap();

    assert_eq!(sorted_paths(&requests), vec!["/browse", "/movies"]);
}

#[test]
fn a_non_empty_query_that_maps_to_nothing_falls_back_to_defaults_exactly_like_an_empty_query() {
    let def = category_def();
    let q = query("ubuntu", vec![8000]);

    let requests = build_search_requests(&def, &q, &Settings::default()).unwrap();

    assert_eq!(sorted_paths(&requests), vec!["/browse", "/movies"]);
}

#[test]
fn a_gated_path_is_reachable_regardless_of_query_when_the_definition_declares_no_categorymappings() {
    let def = definition(
        &["https://example.org/"],
        vec![],
        search(
            vec![path("browse"), gated("gated", &["1000"])],
            &[("q", "{{ .Keywords }}")],
        ),
    );
    let q = query("ubuntu", vec![2000]);

    let requests = build_search_requests(&def, &q, &Settings::default()).unwrap();

    assert_eq!(sorted_paths(&requests), vec!["/browse", "/gated"]);
}

#[test]
fn an_unparseable_base_link_is_a_request_build_error_naming_the_definition() {
    let def = definition(&["not a valid url"], vec![], search(vec![path("browse")], &[]));
    let q = query("ubuntu", vec![]);

    let err = build_search_requests(&def, &q, &Settings::default()).unwrap_err();

    let RequestBuildError { definition, .. } = err;
    assert_eq!(definition, "example");
}

#[test]
fn no_links_at_all_is_a_request_build_error() {
    let def = definition(&[], vec![], search(vec![path("browse")], &[]));
    let q = query("ubuntu", vec![]);

    let err = build_search_requests(&def, &q, &Settings::default()).unwrap_err();

    assert!(matches!(err, RequestBuildError { .. }));
    assert_eq!(err.reason, "definition declares no links");
}

fn two_mappings() -> Vec<CategoryMapping> {
    vec![
        mapping("1", "Movies", "Movies", false),
        mapping("2", "TV/SD", "TV SD", false),
    ]
}

#[test]
fn raw_input_is_appended_verbatim_to_the_query_string() {
    let def = definition(
        &["https://example.org/"],
        two_mappings(),
        search(
            vec![path("browse")],
            &[
                ("$raw", "{{ range .Categories }}c{{.}}=1&{{end}}"),
                ("q", "{{ .Keywords }}"),
            ],
        ),
    );
    let q = query("ubuntu", vec![2000, 5030]);

    let requests = build_search_requests(&def, &q, &Settings::default()).unwrap();

    assert_eq!(requests.len(), 1);
    assert_eq!(
        requests[0].url.as_str(),
        "https://example.org/browse?q=ubuntu&c1=1&c2=1&"
    );
}

#[test]
fn raw_input_on_a_post_path_is_parsed_into_form_pairs_not_dropped() {
    let mut p = path("takelogin.php");
    p.method = Some("post".to_string());
    let def = definition(
        &["https://example.org/"],
        two_mappings(),
        search(
            vec![p],
            &[
                (
                    "$raw",
                    "{{ if .Categories }}{{ range .Categories }}f[]={{.}}&{{end}}{{ else }}f[]=-1{{ end }}",
                ),
                ("search", "{{ .Keywords }}"),
            ],
        ),
    );
    let q = query("ubuntu", vec![2000, 5030]);

    let requests = build_search_requests(&def, &q, &Settings::default()).unwrap();

    assert_eq!(requests.len(), 1);
    assert_eq!(requests[0].url.as_str(), "https://example.org/takelogin.php");
    assert_eq!(
        requests[0].body,
        Some(Body::Form(vec![
            ("f[]".to_string(), "1".to_string()),
            ("f[]".to_string(), "2".to_string()),
            ("search".to_string(), "ubuntu".to_string()),
        ]))
    );
}

#[test]
fn path_inputs_overlay_search_inputs_on_key_collision() {
    let mut p = path("browse");
    p.inputs = pairs(&[("sort", "seeders")]);
    let def = definition(
        &["https://example.org/"],
        vec![],
        search(vec![p], &[("q", "{{ .Keywords }}"), ("sort", "created")]),
    );
    let q = query("ubuntu", vec![]);

    let requests = build_search_requests(&def, &q, &Settings::default()).unwrap();

    assert_eq!(
        requests[0].url.as_str(),
        "https://example.org/browse?q=ubuntu&sort=seeders"
    );
}

#[test]
fn empty_rendered_inputs_are_dropped_unless_allow_empty_inputs_is_set() {
    let def = definition(
        &["https://example.org/"],
        vec![],
        search(
            vec![path("browse")],
            &[("q", "{{ .Keywords }}"), ("imdb", "{{ .Query.IMDBID }}")],
        ),
    );
    let q = query("ubuntu", vec![]);

    let requests = build_search_requests(&def, &q, &Settings::default()).unwrap();

    assert_eq!(requests[0].url.as_str(), "https://example.org/browse?q=ubuntu");
}

#[test]
fn allow_empty_inputs_keeps_an_empty_rendered_value() {
    let mut s = search(vec![path("browse")], &[("imdb", "{{ .Query.IMDBID }}")]);
    s.allow_empty_inputs = true;
    let def = definition(&["https://example.org/"], vec![], s);
    let q = query("ubuntu", vec![]);

    let requests = build_search_requests(&def, &q, &Settings::default()).unwrap();

    assert_eq!(requests[0].url.as_str(), "https://example.org/browse?imdb=");
}

#[test]
fn an_absolute_rendered_path_wins_wholesale_over_the_base_link() {
    let def = definition(
        &["https://example.org/"],
        vec![],
        search(vec![path("https://other.example/api/search")], &[]),
    );
    let q = query("ubuntu", vec![]);

    let requests = build_search_requests(&def, &q, &Settings::default()).unwrap();

    assert_eq!(requests[0].url.as_str(), "https://other.example/api/search");
}

#[test]
fn search_headers_first_value_is_rendered_onto_every_request() {
    let mut s = search(vec![path("browse")], &[]);
    s.headers = vec![(
        "X-Requested-With".to_string(),
        vec![
            "{{ .Config.token }}".to_string(),
            "unused-second-value".to_string(),
        ],
    )];
    let mut def = definition(&["https://example.org/"], vec![], s);
    def.settings = vec![Setting {
        name: "token".to_string(),
        kind: "text".to_string(),
        label: "Token".to_string(),
        default: None,
        options: vec![],
    }];
    let settings = Settings::new(vec![("token".to_string(), "abc123".to_string())]);
    let q = query("ubuntu", vec![]);

    let requests = build_search_requests(&def, &q, &settings).unwrap();

    assert_eq!(
        requests[0].headers,
        vec![("X-Requested-With".to_string(), "abc123".to_string())]
    );
}

#[test]
fn a_path_with_no_leading_slash_joins_cleanly_onto_the_base_link() {
    let def = definition(
        &["https://example.org/sub/"],
        vec![],
        search(vec![path("browse")], &[]),
    );
    let q = query("ubuntu", vec![]);

    let requests = build_search_requests(&def, &q, &Settings::default()).unwrap();

    assert_eq!(requests[0].url.as_str(), "https://example.org/sub/browse");
}

#[test]
fn a_path_with_no_followredirect_key_defaults_to_following_redirects() {
    let def = minimal();
    let q = query("ubuntu", vec![]);

    let requests = build_search_requests(&def, &q, &Settings::default()).unwrap();

    assert!(requests[0].follow_redirects);
}

#[test]
fn a_path_with_explicit_followredirect_false_disables_following() {
    let mut p = path("browse");
    p.followredirect = Some(false);
    let def = definition(&["https://example.org/"], vec![], search(vec![p], &[]));
    let q = query("ubuntu", vec![]);

    let requests = build_search_requests(&def, &q, &Settings::default()).unwrap();

    assert!(!requests[0].follow_redirects);
}

#[test]
fn a_path_with_explicit_followredirect_true_follows() {
    let mut p = path("browse");
    p.followredirect = Some(true);
    let def = definition(&["https://example.org/"], vec![], search(vec![p], &[]));
    let q = query("ubuntu", vec![]);

    let requests = build_search_requests(&def, &q, &Settings::default()).unwrap();

    assert!(requests[0].follow_redirects);
}

#[test]
fn a_bare_search_path_shorthand_is_treated_as_a_single_element_paths_list() {
    let mut s = search(vec![], &[("search", "{{ .Keywords }}")]);
    s.path = Some("browse.php".to_string());
    let def = definition(&["https://example.org/"], vec![], s);
    let q = query("ubuntu", vec![]);

    let requests = build_search_requests(&def, &q, &Settings::default()).unwrap();

    assert_eq!(requests.len(), 1);
    assert_eq!(
        requests[0].url.as_str(),
        "https://example.org/browse.php?search=ubuntu"
    );
}

#[test]
fn a_template_that_fails_to_render_names_the_definition_and_the_template() {
    let def = definition(
        &["https://example.org/"],
        vec![],
        search(vec![path("{{ nonsense }}")], &[]),
    );
    let q = query("ubuntu", vec![]);

    let err = build_search_requests(&def, &q, &Settings::default()).unwrap_err();

    assert_eq!(err.definition, "example");
    assert_eq!(
        err.reason,
        "template \"{{ nonsense }}\": unsupported or malformed template"
    );
}

#[test]
fn a_base_link_without_a_trailing_slash_is_normalised_before_joining() {
    let def = definition(&["https://example.org/sub"], vec![], search(vec![path("browse")], &[]));
    let q = query("ubuntu", vec![]);

    let requests = build_search_requests(&def, &q, &Settings::default()).unwrap();

    assert_eq!(requests[0].url.as_str(), "https://example.org/sub/browse");
}
