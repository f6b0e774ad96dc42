use oxidarr::dom::Document;
use oxidarr::selector::compile;

const HTML: &str = r#"<table>
        <tr id="a"><td class="c1"><a href="/torrent/1">Big Buck Bunny</a></td></tr>
        <tr id="b"><td class="c1"><a href="/torrent/2">Sintel</a></td></tr>
    </table>"#;

fn ids_in(html: &str, raw: &str) -> Vec<String> {
    let doc = Document::parse(html);
    let root = doc.root();
    compile(raw)
        .unwrap()
        .select(&doc, root)
        .iter()
        .map(|&e| doc.attr(e, "id").unwrap_or_default())
        .collect()
}

fn ids(raw: &str) -> Vec<String> {
    ids_in(HTML, raw)
}

#[test]
fn plain_css_is_unchanged() {
    assert_eq!(ids("tr"), vec!["a", "b"]);
}

#[test]
fn self_contains_filters_by_text() {
    assert_eq!(ids("tr:contains(Bunny)"), vec!["a"]);
}

#[test]
fn contains_nested_in_has() {
    assert_eq!(ids("tr:has(td:contains(Sintel))"), vec!["b"]);
}

#[test]
fn quoted_contains_argument() {
    assert_eq!(ids(r#"tr:contains("Big Buck")"#), vec!["a"]);
}

#[test]
fn has_without_contains_still_works() {
    assert_eq!(ids(r#"tr:has(a[href^="/torrent/"])"#), vec!["a", "b"]);
}

#[test]
fn not_contains_negates_self() {
    assert_eq!(ids(r#"tr:not(:contains("Sintel"))"#), vec!["a"]);
}

#[test]
fn not_has_contains_negates_descendant() {
    assert_eq!(ids(r#"tr:not(:has(td:contains("Sintel")))"#), vec!["a"]);
}

#[test]
fn bare_contains_matches_universal_selector() {
    let matched = ids(r#":contains("Sintel")"#);
    assert!(matched.contains(&"b".to_string()));
    assert!(!matched.contains(&"a".to_string()));
}

#[test]
fn comma_list_unions_branches() {
    assert_eq!(ids(r#"tr:contains("Bunny"), tr:contains("Sintel")"#), vec!["a", "b"]);
}

#[test]
fn a_comma_list_selects_each_element_once_in_document_order() {
    assert_eq!(ids(r#"tr#b, tr, tr#a"#), vec!["a", "b"]);
}

#[test]
fn a_bare_class_selector_is_not_mistaken_for_a_json_path() {
    let html = r#"<table><tr id="a" class="result"><td>x</td></tr></table>"#;
    assert_eq!(ids_in(html, "tr.result"), vec!["a"]);
}

#[test]
fn json_path_selectors_select_nothing() {
    assert_eq!(ids("$.numFound"), Vec::<String>::new());
    assert_eq!(ids("files[0].name"), Vec::<String>::new());
    assert_eq!(ids("..title"), Vec::<String>::new());
}

#[test]
fn empty_contains_argument_matches_everything() {
    let doc = Document::parse(HTML);
    let root = doc.root();
    let matched = compile("td:contains()").unwrap().select(&doc, root);
    assert_eq!(matched.len(), 2);
    assert!(matched.iter().all(|&el| doc.attr(el, "class").as_deref() == Some("c1")));
}

#[test]
fn bang_equals_inside_contains_does_not_corrupt_a_later_attribute() {
    let html = r#"
            <div id="x1" title="z">has x!=y in its text</div>
            <div id="x2" title="w">has x!=y in its text</div>
        "#;
    assert_eq!(ids_in(html, r#"div:contains("x!=y")[title!="z"]"#), vec!["x2"]);
}

#[test]
fn a_selector_matches_an_element_itself() {
    let doc = Document::parse(HTML);
    let root = doc.root();
    let rows = compile("tr").unwrap().select(&doc, root);
    assert!(compile("tr:contains(Sintel)").unwrap().matches(&doc, rows[1]));
    assert!(!compile("tr:contains(Sintel)").unwrap().matches(&doc, rows[0]));
    assert!(!compile("$.x").unwrap().matches(&doc, rows[0]));
    assert_eq!(doc.text(rows[0]), "Big Buck Bunny");
}

#[test]
fn is_json_path_flags_json_field_paths_but_not_css() {
    assert!(compile("$.numFound").unwrap().is_json_path());
    assert!(compile("files[0].name").unwrap().is_json_path());
    assert!(!compile("tr.result").unwrap().is_json_path());
}
