use oxidarr::model::Setting;
use oxidarr::query::{scope_for, SearchQuery, Settings};
use oxidarr::template::render;

fn sort_setting() -> Vec<Setting> {
    vec![Setting {
        name: "sort".to_string(),
        kind: "select".to_string(),
        label: "Sort".to_string(),
        default: Some("created".to_string()),
        options: vec![],
    }]
}

fn get<'a>(resolved: &'a [(String, String)], key: &str) -> Option<&'a str> {
    resolved
        .iter()
        .find(|(k, _)| k == key)
        .map(|(_, v)| v.as_str())
}

#[test]
fn resolved_overlays_a_user_value_onto_a_settings_default() {
    let decls = sort_setting();
    let settings = Settings::new(vec![("sort".to_string(), "seeders".to_string())]);

    let resolved = settings.resolved(&decls);

    assert_eq!(get(&resolved, "sort"), Some("seeders"));
}

#[test]
fn resolved_falls_back_to_the_settings_default_when_absent() {
    let decls = sort_setting();
    let settings = Settings::default();

    let resolved = settings.resolved(&decls);

    assert_eq!(get(&resolved, "sort"), Some("created"));
}

#[test]
fn resolved_is_ordered_by_name_and_an_undeclared_default_is_empty() {
    let mut decls = sort_setting();
    decls.insert(
        0,
        Setting {
            name: "username".to_string(),
            kind: "text".to_string(),
            label: "Username".to_string(),
            default: None,
            options: vec![],
        },
    );
    let settings = Settings::new(vec![("extra".to_string(), "ignored".to_string())]);

    let resolved = settings.resolved(&decls);

    assert_eq!(
        resolved,
        vec![
            ("sort".to_string(), "created".to_string()),
            ("username".to_string(), String::new()),
        ]
    );
}

#[test]
fn scope_for_renders_config_and_query_variables() {
    let decls = sort_setting();
    let settings = Settings::new(vec![("sort".to_string(), "seeders".to_string())]);
    let query = SearchQuery {
        q: Some("ubuntu".to_string()),
        ..SearchQuery::default()
    };

    let scope = scope_for(&decls, &query, &settings, &[]);

    assert_eq!(
        render("{{ .Config.sort }}-{{ .Query.Q }}", &scope).unwrap(),
        "seeders-ubuntu"
    );
}

#[test]
fn scope_for_defaults_query_variables_to_empty_when_absent() {
    let decls = sort_setting();
    let scope = scope_for(&decls, &SearchQuery::default(), &Settings::default(), &[]);

    assert_eq!(
        render(
            "[{{ .Query.IMDBID }}][{{ .Query.Season }}][{{ .Query.Ep }}]",
            &scope
        )
        .unwrap(),
        "[][][]"
    );
}

#[test]
fn scope_for_renders_season_and_episode_in_decimal() {
    let query = SearchQuery {
        season: Some(2),
        episode: Some(10),
        imdb_id: Some("tt0944947".to_string()),
        ..SearchQuery::default()
    };
    let scope = scope_for(&[], &query, &Settings::default(), &[]);

    assert_eq!(
        render(
            "[{{ .Query.IMDBID }}][{{ .Query.Season }}][{{ .Query.Ep }}]",
            &scope
        )
        .unwrap(),
        "[tt0944947][2][10]"
    );
}

#[test]
fn scope_for_binds_categories_from_the_mapped_categories_argument_not_the_query() {
    let decls = sort_setting();
    let query = SearchQuery {
        categories: vec![5030],
        ..SearchQuery::default()
    };
    let mapped = vec!["6".to_string(), "12".to_string()];

    let scope = scope_for(&decls, &query, &Settings::default(), &mapped);

    assert_eq!(
        render("{{ join .Categories \",\" }}", &scope).unwrap(),
        "6,12"
    );
}

#[test]
fn scope_for_mirrors_the_raw_query_into_keywords_and_query_keywords() {
    let decls = sort_setting();
    let query = SearchQuery {
        q: Some("Big Buck Bunny".to_string()),
        ..SearchQuery::default()
    };
    let scope = scope_for(&decls, &query, &Settings::default(), &[]);

    assert_eq!(
        render("{{ .Keywords }}|{{ .Query.Keywords }}", &scope).unwrap(),
        "Big Buck Bunny|Big Buck Bunny"
    );
}

#[test]
fn scope_for_does_not_lowercase_or_normalise_whitespace_in_keywords() {
    let decls = sort_setting();
    let query = SearchQuery {
        q: Some("Big  Buck\tBunny".to_string()),
        ..SearchQuery::default()
    };
    let scope = scope_for(&decls, &query, &Settings::default(), &[]);

    assert_eq!(
        render("{{ .Keywords }}", &scope).unwrap(),
        "Big  Buck\tBunny"
    );
}

#[test]
fn keywords_splits_on_whitespace_and_lowercases() {
    let query = SearchQuery {
        q: Some("Big  Buck\tBunny".to_string()),
        ..SearchQuery::default()
    };

    assert_eq!(
        query.keywords(),
        vec!["big".to_string(), "buck".to_string(), "bunny".to_string()]
    );
}

#[test]
fn keywords_is_empty_when_q_is_absent() {
    assert_eq!(SearchQuery::default().keywords(), Vec::<String>::new());
}

#[test]
fn a_later_user_value_for_a_name_replaces_an_earlier_one() {
    let decls = sort_setting();
    let settings = Settings::new(vec![
        ("sort".to_string(), "seeders".to_string()),
        ("sort".to_string(), "size".to_string()),
    ]);

    assert_eq!(get(&settings.resolved(&decls), "sort"), Some("size"));
}
