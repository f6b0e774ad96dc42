use oxidarr::categories::{all, by_id, parent_of};

#[test]
fn by_id_finds_a_top_level_category_with_no_parent() {
    let tv = by_id(5000).unwrap();
    assert_eq!(tv.name, "TV");
    assert_eq!(tv.parent, None);
}

#[test]
fn by_id_finds_a_subcategory_with_its_parent() {
    let anime = by_id(5070).unwrap();
    assert_eq!(anime.parent, Some(5000));
}

#[test]
fn parent_of_a_subcategory_is_its_top_level_id() {
    assert_eq!(parent_of(2040), Some(2000));
}

#[test]
fn parent_of_a_top_level_category_is_itself() {
    assert_eq!(parent_of(2000), Some(2000));
}

#[test]
fn by_id_of_an_unknown_id_is_none() {
    assert_eq!(by_id(9999), None);
}

#[test]
fn parent_of_an_unknown_id_is_none() {
    assert_eq!(parent_of(9999), None);
}

#[test]
fn all_is_sorted_ascending_by_id() {
    let ids: Vec<u32> = all().iter().map(|c| c.id).collect();
    let mut sorted = ids.clone();
    sorted.sort_unstable();
    assert_eq!(ids, sorted);
}

#[test]
fn all_is_non_empty() {
    assert!(!all().is_empty());
}

#[test]
fn all_has_a_known_member_of_every_top_level_block() {
    let known_ids = [1010, 2040, 3010, 4050, 5070, 6010, 7020, 8010];
    for id in known_ids {
        assert!(by_id(id).is_some(), "expected id {id} to be present");
    }
}

#[test]
fn every_listed_category_is_found_by_id_with_its_name() {
    for c in all() {
        assert_eq!(by_id(c.id), Some(c));
    }
}

#[test]
fn all_has_every_standard_category() {
    assert_eq!(all().len(), 71);
}

#[test]
fn parent_of_an_odd_subcategory_id() {
    assert_eq!(parent_of(5045), Some(5000));
    assert_eq!(by_id(5045).unwrap().name, "TV/UHD");
}

#[test]
fn parent_of_a_listed_category_is_a_listed_top_level_block() {
    for c in all() {
        let p = parent_of(c.id).unwrap();
        assert_eq!(by_id(p).unwrap().parent, None);
        assert_eq!(parent_of(p), Some(p));
    }
}
