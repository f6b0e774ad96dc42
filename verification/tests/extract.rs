use oxidarr::engine::extract;
use oxidarr::feed::ReleaseFields;
use oxidarr::filters::FilterCtx;
use oxidarr::model::{
    Caps, CategoryMapping, Definition, Field, FilterArg, FilterArgs, FilterSpec, Rows, Search,
    SearchPath,
};

fn field() -> Field {
    Field {
        selector: None,
        attribute: None,
        remove: None,
        text: None,
        case: None,
        default: None,
        optional: false,
        filters: vec![],
    }
}

fn sel(s: &str) -> Field {
    Field {
        selector: Some(s.to_string()),
        ..field()
    }
}

fn attr(s: &str, a: &str) -> Field {
    Field {
        attribute: Some(a.to_string()),
        ..sel(s)
    }
}

fn definition(fields: Vec<(&str, Field)>, mappings: Vec<CategoryMapping>) -> Definition {
    Definition {
        id: "simple".to_string(),
        name: "Simple".to_string(),
        description: String::new(),
        language: String::new(),
        kind: String::new(),
        encoding: String::new(),
        links: vec![],
        legacylinks: vec![],
        caps: Caps {
            categorymappings: mappings,
            modes: vec![],
        },
        settings: vec![],
        search: Search {
            paths: vec![SearchPath {
                path: "search".to_string(),
                method: None,
                inputs: vec![],
                categories: vec![],
                response: None,
                followredirect: None,
            }],
            path: None,
            inputs: vec![],
            allow_empty_inputs: false,
            keywordsfilters: vec![],
            headers: vec![],
            rows: Rows {
                selector: "tr.result".to_string(),
                attribute: None,
                filters: vec![],
                after: None,
                count: None,
            },
            fields: fields.into_iter().map(|(n, f)| (n.to_string(), f)).collect(),
            error: vec![],
        },
        login: None,
    }
}

fn run(def: &Definition, html: &str) -> Vec<ReleaseFields> {
    extract(def, html, &vec![], &FilterCtx::fixed_for_tests()).unwrap()
}

const SIMPLE_TRACKER: &str = r#"<!DOCTYPE html>
<html><body><table>
<tr class="header"><th>Name</th><th>Size</th></tr>
<tr class="result">
  <td class="name"><a href="/details/1">Big.Buck.Bunny.2008.1080p.BluRay.x264</a></td>
  <td class="dl"><a href="/download/1.torrent">DL</a></td>
  <td class="seeds">120</td><td class="leech">7</td><td class="size">1.4 GB</td>
</tr>
<tr class="result">
  <td class="name"><a href="/details/2">Sintel.2010.720p</a></td>
  <td class="dl"><a href="/download/2.torrent">DL</a></td>
  <td class="seeds">15</td><td class="leech">3</td><td class="size">700 MB</td>
</tr>
</table></body></html>"#;

fn releases() -> Vec<ReleaseFields> {
    let def = definition(
        vec![
            ("title", sel("td.name a")),
            ("details", attr("td.name a", "href")),
            ("download", attr("td.dl a", "href")),
            ("seeders", sel("td.seeds")),
            ("leechers", sel("td.leech")),
            ("size", sel("td.size")),
        ],
        vec![],
    );
    run(&def, SIMPLE_TRACKER)
}

#[test]
fn extracts_one_release_per_row() {
    assert_eq!(releases().len(), 2);
}

#[test]
fn reads_element_text_for_title() {
    assert_eq!(releases()[0].title, "Big.Buck.Bunny.2008.1080p.BluRay.x264");
}

#[test]
fn reads_attributes_when_specified() {
    assert_eq!(releases()[1].download_url.as_deref(), Some("/download/2.torrent"));
    assert_eq!(releases()[1].details_url.as_deref(), Some("/details/2"));
}

#[test]
fn parses_numeric_fields() {
    assert_eq!(releases()[0].seeders, Some(120));
    assert_eq!(releases()[0].leechers, Some(7));
}

#[test]
fn parses_human_readable_sizes() {
    assert_eq!(releases()[1].size, Some(700 * 1024 * 1024));
    assert_eq!(releases()[0].size, Some(1_503_238_553));
}

fn case(entries: &[(&str, &str)]) -> Field {
    Field {
        case: Some(entries.iter().map(|(k, v)| (k.to_string(), v.to_string())).collect()),
        ..field()
    }
}

const FREELEECH_ROWS: &str = r#"<table>
<tr class="result"><td class="name">A</td><td class="dl"><img src="/freeleech.gif"></td></tr>
<tr class="result"><td class="name">B</td><td class="dl"></td></tr>
</table>"#;

#[test]
fn case_takes_the_first_matching_selector() {
    let def = definition(
        vec![
            ("title", sel("td.name")),
            ("downloadvolumefactor", case(&[(r#"img[src$="/freeleech.gif"]"#, "0"), ("*", "1")])),
        ],
        vec![],
    );
    let releases = run(&def, FREELEECH_ROWS);
    assert_eq!(releases[0].download_volume_factor.as_deref(), Some("0"));
    assert_eq!(releases[1].download_volume_factor.as_deref(), Some("1"));
}

#[test]
fn case_wildcard_is_only_reached_when_nothing_else_matches() {
    let def = definition(
        vec![
            ("title", sel("td.name")),
            ("downloadvolumefactor", case(&[("*", "1"), (r#"img[src$="/freeleech.gif"]"#, "0")])),
        ],
        vec![],
    );
    let releases = run(&def, FREELEECH_ROWS);
    assert_eq!(releases[0].download_volume_factor.as_deref(), Some("1"));
    assert_eq!(releases[1].download_volume_factor.as_deref(), Some("1"));
}

#[test]
fn a_case_key_matching_the_row_itself_counts_and_values_render() {
    let def = definition(
        vec![
            ("title", sel("td.name")),
            ("uploadvolumefactor", case(&[("tr.result", "{{ if .Result.title }}2{{ else }}0{{ end }}")])),
        ],
        vec![],
    );
    let releases = run(&def, FREELEECH_ROWS);
    assert_eq!(releases[0].upload_volume_factor.as_deref(), Some("2"));
}

#[test]
fn default_substitutes_only_when_the_result_is_empty() {
    let def = definition(
        vec![
            ("title", sel("td.name")),
            ("genre", Field { default: Some("Unknown".to_string()), ..sel("td.missing") }),
            ("description", Field { default: Some("Unknown".to_string()), ..sel("td.name") }),
        ],
        vec![],
    );
    let releases = run(&def, r#"<table><tr class="result"><td class="name">A</td></tr></table>"#);
    assert_eq!(releases[0].genre.as_deref(), Some("Unknown"));
    assert_eq!(releases[0].description.as_deref(), Some("A"));
}

fn removing(s: &str, rm: &str) -> Field {
    Field {
        remove: Some(rm.to_string()),
        ..sel(s)
    }
}

#[test]
fn remove_strips_matching_elements_before_reading_text() {
    let def = definition(vec![("title", removing("td.name", "span.tag"))], vec![]);
    let html = r#"<table><tr class="result"><td class="name">Big Buck Bunny<span class="tag"> NEW</span></td></tr></table>"#;
    assert_eq!(run(&def, html)[0].title, "Big Buck Bunny");
}

#[test]
fn remove_strips_elements_nested_several_levels_deep() {
    let def = definition(vec![("title", removing("td.name", "span.tag"))], vec![]);
    let html = r#"<table><tr class="result"><td class="name">Big Buck<div><em><span class="tag"> NEW</span></em></div> Bunny</td></tr></table>"#;
    assert_eq!(run(&def, html)[0].title, "Big Buck Bunny");
}

#[test]
fn remove_strips_multiple_sibling_elements() {
    let def = definition(vec![("title", removing("td.name", "span.tag"))], vec![]);
    let html = r#"<table><tr class="result"><td class="name"><span class="tag">[X]</span>Big<span class="tag">[Y]</span> Buck<span class="tag">[Z]</span> Bunny</td></tr></table>"#;
    assert_eq!(run(&def, html)[0].title, "Big Buck Bunny");
}

#[test]
fn a_date_field_with_no_rfc3339_producing_filter_leaves_publish_date_none() {
    let def = definition(
        vec![("title", sel("td.name")), ("date", sel("td.date")), ("category", sel("td.cat"))],
        vec![],
    );
    let html = r#"<table><tr class="result"><td class="name">A</td><td class="date">2024-01-01</td><td class="cat">2000</td></tr></table>"#;
    let releases = run(&def, html);
    assert_eq!(releases[0].title, "A");
    assert!(releases[0].publish_date.is_none());
    assert!(releases[0].categories.is_empty());
}

fn mapping(id: &str, cat: &str, desc: &str) -> CategoryMapping {
    CategoryMapping {
        id: id.to_string(),
        cat: cat.to_string(),
        desc: desc.to_string(),
        default: false,
    }
}

#[test]
fn categories_resolve_through_the_definitions_categorymappings() {
    let def = definition(
        vec![("title", sel("td.name")), ("category", sel("td.cat"))],
        vec![mapping("6", "Movies/HD", "Movies HD"), mapping("9", "TV/SD", "TV SD")],
    );
    let html = r#"<table>
<tr class="result"><td class="name">A</td><td class="cat">6</td></tr>
<tr class="result"><td class="name">B</td><td class="cat">9</td></tr>
<tr class="result"><td class="name">C</td><td class="cat">99</td></tr>
</table>"#;
    let releases = run(&def, html);
    assert_eq!(releases[0].categories, vec![2040]);
    assert_eq!(releases[1].categories, vec![5030]);
    assert!(releases[2].categories.is_empty());
}

fn filter(name: &str, args: &[&str]) -> FilterSpec {
    FilterSpec {
        name: name.to_string(),
        args: match args {
            [] => FilterArgs::Empty,
            [one] => FilterArgs::One(FilterArg::Text(one.to_string())),
            many => FilterArgs::Many(many.iter().map(|a| FilterArg::Text(a.to_string())).collect()),
        },
    }
}

#[test]
fn publish_date_is_populated_when_the_date_field_parses_as_rfc3339() {
    let def = definition(
        vec![
            ("title", sel("td.name")),
            ("date", Field { filters: vec![filter("dateparse", &["yyyy-MM-dd"])], ..sel("td.date") }),
        ],
        vec![],
    );
    let html = r#"<table><tr class="result"><td class="name">A</td><td class="date">2025-03-09</td></tr></table>"#;
    assert_eq!(run(&def, html)[0].publish_date.as_deref(), Some("2025-03-09T00:00:00+00:00"));
}

#[test]
fn fields_evaluate_in_declaration_order_not_alphabetical_order() {
    let def = definition(
        vec![
            ("title_default", sel("td.fallback")),
            ("title_optional", sel("td.preferred")),
            (
                "title",
                Field {
                    text: Some(
                        "{{ if .Result.title_optional }}{{ .Result.title_optional }}{{ else }}{{ .Result.title_default }}{{ end }}"
                            .to_string(),
                    ),
                    ..field()
                },
            ),
        ],
        vec![],
    );
    let html = r#"<table>
            <tr class="result"><td class="fallback">Fallback</td><td class="preferred">Preferred</td></tr>
            <tr class="result"><td class="fallback">OnlyFallback</td></tr>
        </table>"#;
    let releases = run(&def, html);
    assert_eq!(releases[0].title, "Preferred");
    assert_eq!(releases[1].title, "OnlyFallback");
}

#[test]
fn andmatch_drops_rows_that_fail_to_match_every_keyword() {
    let def = definition(
        vec![("title", Field { filters: vec![filter("andmatch", &[])], ..sel("td.name") })],
        vec![],
    );
    let html = r#"<table>
<tr class="result"><td class="name">Ubuntu 24.04 Server</td></tr>
<tr class="result"><td class="name">Ubuntu 24.04 Desktop</td></tr>
</table>"#;
    let mut ctx = FilterCtx::fixed_for_tests();
    ctx.keywords = vec!["ubuntu".into(), "server".into()];
    let releases = extract(&def, html, &vec![], &ctx).unwrap();
    assert_eq!(releases.len(), 1);
    assert_eq!(releases[0].title, "Ubuntu 24.04 Server");
}

#[test]
fn a_json_response_definition_is_rejected_even_with_a_css_shaped_row_selector() {
    let mut def = definition(vec![("title", sel("name"))], vec![]);
    def.search.paths[0].path = "api/torrents".to_string();
    def.search.paths[0].response = Some("json".to_string());
    def.search.rows.selector = "data".to_string();
    let message = match extract(&def, r#"{"data":[{"name":"A"}]}"#, &vec![], &FilterCtx::fixed_for_tests()) {
        Ok(releases) => format!("accepted, returning {} releases", releases.len()),
        Err(e) => e.to_string(),
    };
    assert!(message.contains("JSON"), "got: {message}");
}

#[test]
fn a_json_field_path_selector_is_a_clear_error_not_a_silent_empty_value() {
    let def = definition(vec![("title", sel("$.torrents[0].id"))], vec![]);
    let html = r#"<table><tr class="result"><td class="name">A</td></tr></table>"#;
    let err = extract(&def, html, &vec![], &FilterCtx::fixed_for_tests()).unwrap_err();
    assert!(err.to_string().contains("$.torrents[0].id"), "got: {}", err.to_string());
}

#[test]
fn rows_after_skips_leading_rows_and_config_reaches_templates() {
    let mut def = definition(
        vec![(
            "title",
            Field { text: Some("{{ .Config.prefix }}-{{ .Result.name }}".to_string()), ..field() },
        )],
        vec![],
    );
    def.search.fields.insert(0, ("name".to_string(), sel("td.name")));
    def.search.rows.after = Some(1);
    let html = r#"<table><tr class="result"><td class="name">Head</td></tr><tr class="result"><td class="name">A</td></tr></table>"#;
    let config = vec![("prefix".to_string(), "P".to_string())];
    let releases = extract(&def, html, &config, &FilterCtx::fixed_for_tests()).unwrap();
    assert_eq!(releases.len(), 1);
    assert_eq!(releases[0].title, "P-A");
}
