use oxidarr::engine::parse_size;

#[test]
fn unreadable_size_is_none_not_zero() {
    assert_eq!(parse_size(""), None);
    assert_eq!(parse_size("N/A"), None);
}

#[test]
fn malformed_size_is_none_rather_than_a_wrong_guess() {
    assert_eq!(parse_size("1.2.3 GB"), None);
    assert_eq!(parse_size(""), None);
    assert_eq!(parse_size("N/A"), None);
    assert_eq!(parse_size("700 MB"), Some(700 * 1024 * 1024));
}

#[test]
fn decimal_sizes_and_binary_units() {
    assert_eq!(parse_size("1.5 GiB"), Some(1610612736));
    assert_eq!(parse_size("1.5GB"), Some(1610612736));
    assert_eq!(parse_size("2 tb"), Some(2 * 1024u64.pow(4)));
    assert_eq!(parse_size("  1,024 kb "), Some(1024 * 1024));
    assert_eq!(parse_size("12345"), Some(12345));
    assert_eq!(parse_size("0 B"), Some(0));
}

#[test]
fn at_most_six_decimals_are_read() {
    assert_eq!(parse_size("1.1234567 KB"), Some(1024 + 126));
}

#[test]
fn a_fraction_without_a_whole_part_is_none() {
    assert_eq!(parse_size(".5 GB"), None);
}

#[test]
fn a_whole_part_too_large_for_u64_is_none() {
    assert_eq!(parse_size("99999999999999999999 B"), None);
}

#[test]
fn a_huge_size_saturates() {
    assert_eq!(parse_size("18446744073709551615 TB"), Some(u64::MAX));
}

use oxidarr::catmap::CategoryMap;
use oxidarr::engine::{build_release, finish_field};
use oxidarr::filters::{FilterCtx, FilterOutcome};
use oxidarr::model::{CategoryMapping, Field, FilterArg, FilterArgs, FilterSpec};

fn field(filters: Vec<FilterSpec>, default: Option<&str>) -> Field {
    Field {
        selector: None,
        attribute: None,
        remove: None,
        text: None,
        case: None,
        default: default.map(|d| d.to_string()),
        optional: false,
        filters,
    }
}

fn filter(name: &str, args: &[&str]) -> FilterSpec {
    FilterSpec {
        name: name.to_string(),
        args: FilterArgs::Many(args.iter().map(|a| FilterArg::Text(a.to_string())).collect()),
    }
}

#[test]
fn finish_field_substitutes_the_default_only_for_an_empty_result() {
    let ctx = FilterCtx::fixed_for_tests();
    let f = field(vec![], Some("fallback"));
    assert_eq!(
        finish_field(&f, String::new(), &ctx).unwrap(),
        FilterOutcome::Value("fallback".to_string())
    );
    assert_eq!(
        finish_field(&f, "x".to_string(), &ctx).unwrap(),
        FilterOutcome::Value("x".to_string())
    );
    let g = field(vec![filter("replace", &["x", ""])], Some("fallback"));
    assert_eq!(
        finish_field(&g, "x".to_string(), &ctx).unwrap(),
        FilterOutcome::Value("fallback".to_string())
    );
}

#[test]
fn the_filter_chain_runs_in_order_and_a_dropped_row_stops_it() {
    let mut ctx = FilterCtx::fixed_for_tests();
    let f = field(vec![filter("append", &[" GB"]), filter("prepend", &["Size: "])], None);
    assert_eq!(
        finish_field(&f, "4".to_string(), &ctx).unwrap(),
        FilterOutcome::Value("Size: 4 GB".to_string())
    );
    ctx.keywords = vec!["ubuntu".to_string()];
    let g = field(vec![filter("andmatch", &[]), filter("nonexistent", &[])], None);
    assert_eq!(
        finish_field(&g, "Debian".to_string(), &ctx).unwrap(),
        FilterOutcome::DropRow
    );
    assert!(finish_field(&g, "Ubuntu".to_string(), &ctx).is_err());
}

fn mapping(id: &str, cat: &str) -> CategoryMapping {
    CategoryMapping {
        id: id.to_string(),
        cat: cat.to_string(),
        desc: String::new(),
        default: false,
    }
}

fn values(items: &[(&str, &str)]) -> Vec<(String, String)> {
    items
        .iter()
        .map(|(k, v)| (k.to_string(), v.to_string()))
        .collect()
}

#[test]
fn a_release_is_read_from_its_field_values() {
    let map = CategoryMap::from_mappings(&vec![
        mapping("7", "TV/SD"),
        mapping("7", "TV"),
        mapping("8", "Movies"),
        mapping("7", "TV/SD"),
    ]);
    let r = build_release(
        &values(&[
            ("title", "A"),
            ("size", "1.5 GB"),
            ("seeders", "1,234"),
            ("leechers", "n/a"),
            ("details", ""),
            ("download", "https://e.org/d"),
            ("date", "2025-03-09T18:30:00+02:00"),
            ("category", "7"),
            ("downloadvolumefactor", "0"),
            ("files", "12"),
            ("title", "B"),
        ]),
        &map,
    );
    assert_eq!(r.title, "B");
    assert_eq!(r.size, Some(1_610_612_736));
    assert_eq!(r.seeders, Some(1234));
    assert_eq!(r.leechers, None);
    assert_eq!(r.details_url, None);
    assert_eq!(r.download_url.as_deref(), Some("https://e.org/d"));
    assert_eq!(r.publish_date.as_deref(), Some("2025-03-09T16:30:00+00:00"));
    assert_eq!(r.categories, vec![5000, 5030]);
    assert_eq!(r.download_volume_factor.as_deref(), Some("0"));
    assert_eq!(r.upload_volume_factor.as_deref(), Some(""));
    assert_eq!(r.files, Some(12));
}

#[test]
fn a_date_that_is_not_rfc3339_leaves_publish_date_none() {
    let map = CategoryMap::from_mappings(&vec![]);
    let r = build_release(&values(&[("date", "yesterday")]), &map);
    assert_eq!(r.publish_date, None);
    assert!(r.categories.is_empty());
}
