use oxidarr::newznab::{accepts_status, api_url, build_url, search_request, strip_tt_prefix};
use oxidarr::query::SearchQuery;

fn base(s: &str) -> String {
    url::Url::parse(s).unwrap().to_string()
}

#[test]
fn tvsearch_query_maps_to_the_expected_url_in_a_fixed_param_order() {
    let q = SearchQuery {
        q: Some("show".to_string()),
        season: Some(2),
        episode: Some(5),
        ..SearchQuery::default()
    };
    assert_eq!(
        build_url(&base("https://api.example.com/"), &q, Some("k")),
        "https://api.example.com/api?t=tvsearch&q=show&season=2&ep=5&apikey=k"
    );
}

#[test]
fn plain_search_uses_t_search_joins_categories_and_strips_the_tt_imdb_prefix() {
    let q = SearchQuery {
        q: Some("ubuntu".to_string()),
        imdb_id: Some("tt1234567".to_string()),
        categories: vec![5000, 5030],
        ..SearchQuery::default()
    };
    assert_eq!(
        build_url(&base("https://api.example.com/"), &q, None),
        "https://api.example.com/api?t=search&q=ubuntu&imdbid=1234567&cat=5000%2C5030"
    );
}

#[test]
fn a_base_already_ending_in_api_is_used_as_is() {
    assert_eq!(
        build_url(&base("https://host/nzbhydra/api"), &SearchQuery::default(), None),
        "https://host/nzbhydra/api?t=search"
    );
}

#[test]
fn a_bare_host_base_with_no_path_still_gets_api_appended() {
    assert_eq!(
        build_url(&base("https://host"), &SearchQuery::default(), None),
        "https://host/api?t=search"
    );
}

#[test]
fn a_base_with_a_subpath_and_trailing_slash_gets_api_appended_as_a_sibling() {
    assert_eq!(
        build_url(&base("https://host/nzbhydra/"), &SearchQuery::default(), None),
        "https://host/nzbhydra/api?t=search"
    );
}

#[test]
fn an_uppercase_tt_imdb_prefix_is_also_stripped() {
    let q = SearchQuery {
        imdb_id: Some("TT1234567".to_string()),
        ..SearchQuery::default()
    };
    assert_eq!(
        build_url(&base("https://host"), &q, None),
        "https://host/api?t=search&imdbid=1234567"
    );
}

#[test]
fn a_base_query_is_dropped_and_an_api_path_with_trailing_slash_is_kept() {
    assert_eq!(api_url(&base("https://host/api/?x=1")), "https://host/api/");
}

#[test]
fn strip_tt_prefix_leaves_other_ids_alone() {
    assert_eq!(strip_tt_prefix("tT42"), "42");
    assert_eq!(strip_tt_prefix("1234567"), "1234567");
    assert_eq!(strip_tt_prefix("t"), "t");
    assert_eq!(strip_tt_prefix("éé12"), "éé12");
}

#[test]
fn only_2xx_statuses_are_accepted() {
    assert!(accepts_status(200));
    assert!(accepts_status(299));
    assert!(!accepts_status(199));
    assert!(!accepts_status(300));
    assert!(!accepts_status(404));
}

#[test]
fn the_search_request_is_a_plain_get() {
    let req = search_request(&base("https://host"), &SearchQuery::default(), Some("k"));
    assert_eq!(req.url, "https://host/api?t=search&apikey=k");
    assert!(req.body.is_none());
    assert!(req.headers.is_empty());
}
