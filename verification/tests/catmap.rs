use oxidarr::catmap::CategoryMap;
use oxidarr::model::CategoryMapping;

fn row(id: &str, cat: &str, default: bool) -> CategoryMapping {
    CategoryMapping {
        id: id.to_string(),
        cat: cat.to_string(),
        desc: String::new(),
        default,
    }
}

fn sample_map() -> CategoryMap {
    CategoryMap::from_mappings(&vec![
        row("6", "Movies/HD", true),
        row("9", "TV/SD", false),
        row("12", "Movies/HD", false),
    ])
}

fn block_only_map() -> CategoryMap {
    CategoryMap::from_mappings(&vec![row("7", "TV", false)])
}

#[test]
fn to_newznab_resolves_a_mapped_tracker_id() {
    assert_eq!(sample_map().to_newznab("6"), vec![2040]);
}

#[test]
fn to_newznab_is_empty_for_an_unmapped_tracker_id() {
    assert_eq!(sample_map().to_newznab("99"), Vec::<u32>::new());
}

#[test]
fn to_tracker_finds_every_tracker_id_mapped_to_a_newznab_id() {
    assert_eq!(
        sample_map().to_tracker(&[2040]),
        vec!["6".to_string(), "12".to_string()]
    );
}

#[test]
fn to_tracker_expands_a_parent_id_to_its_children() {
    let tracker_ids = sample_map().to_tracker(&[2000]);
    assert!(tracker_ids.contains(&"6".to_string()));
    assert!(tracker_ids.contains(&"12".to_string()));
}

#[test]
fn defaults_lists_tracker_ids_flagged_default() {
    let map = sample_map();
    assert_eq!(map.defaults(), &["6".to_string()]);
}

#[test]
fn newznab_ids_is_sorted_and_distinct() {
    assert_eq!(sample_map().newznab_ids(), vec![2040, 5030]);
}

#[test]
fn to_tracker_matches_the_block_query_itself() {
    assert_eq!(block_only_map().to_tracker(&[5000]), vec!["7".to_string()]);
}

#[test]
fn to_tracker_does_not_expand_a_subcategory_query_to_a_block_only_mapping() {
    assert_eq!(block_only_map().to_tracker(&[5030]), Vec::<String>::new());
}

#[test]
fn to_tracker_does_not_match_an_unrelated_top_level_block() {
    assert_eq!(block_only_map().to_tracker(&[2040]), Vec::<String>::new());
}

#[test]
fn an_unknown_category_name_maps_nothing_but_keeps_its_default_flag() {
    let map = CategoryMap::from_mappings(&vec![row("3", "No/Such", true), row("3", "TV", true)]);
    assert_eq!(map.to_newznab("3"), vec![5000]);
    assert_eq!(map.defaults(), &["3".to_string()]);
}

#[test]
fn newznab_ids_sorts_out_of_order_rows() {
    let map = CategoryMap::from_mappings(&vec![
        row("a", "TV/SD", false),
        row("b", "Console", false),
        row("c", "TV/SD", false),
        row("d", "Movies", false),
    ]);
    assert_eq!(map.newznab_ids(), vec![1000, 2000, 5030]);
}
