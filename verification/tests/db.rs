use oxidarr::db::{mapping_from_ids, row_id_to_i32, AppKind, IndexerKind, MappingRow, SyncLevel};
use oxidarr::ids::{AppId, IndexerId, RemoteIndexerId};

#[test]
fn every_app_kind_reads_back_what_it_stores() {
    for kind in [AppKind::Sonarr, AppKind::Radarr] {
        assert_eq!(AppKind::from_stored(kind.as_str()), Ok(kind));
    }
    assert_eq!(AppKind::Sonarr.as_str(), "sonarr");
    assert_eq!(AppKind::Radarr.as_str(), "radarr");
}

#[test]
fn every_sync_level_reads_back_what_it_stores() {
    for level in [SyncLevel::Disabled, SyncLevel::AddOnly, SyncLevel::FullSync] {
        assert_eq!(SyncLevel::from_stored(level.as_str()), Ok(level));
    }
    assert_eq!(SyncLevel::AddOnly.as_str(), "addOnly");
    assert_eq!(SyncLevel::FullSync.as_str(), "fullSync");
}

#[test]
fn every_indexer_kind_reads_back_what_it_stores() {
    for kind in [IndexerKind::Cardigann, IndexerKind::Newznab, IndexerKind::Torznab] {
        assert_eq!(IndexerKind::from_stored(kind.as_str()), Ok(kind));
    }
}

#[test]
fn an_unknown_stored_kind_is_corrupt_naming_the_column_and_quoting_the_value() {
    let err = AppKind::from_stored("Sonarr").unwrap_err();
    assert_eq!(err.field, "applications.kind");
    assert_eq!(err.reason, "unknown application kind \"Sonarr\"");

    let err = SyncLevel::from_stored("full").unwrap_err();
    assert_eq!(err.field, "applications.sync_level");
    assert_eq!(err.reason, "unknown sync level \"full\"");

    let err = IndexerKind::from_stored("").unwrap_err();
    assert_eq!(err.field, "indexers.kind");
    assert_eq!(err.reason, "unknown indexer kind \"\"");
}

#[test]
fn row_ids_outside_i32_are_corrupt() {
    assert_eq!(row_id_to_i32(7, "applications.id"), Ok(7));
    assert_eq!(row_id_to_i32(i32::MIN as i64, "applications.id"), Ok(i32::MIN));
    let err = row_id_to_i32(i32::MAX as i64 + 1, "applications.id").unwrap_err();
    assert_eq!(err.field, "applications.id");
    assert_eq!(err.reason, "out of range integral type conversion attempted");
    assert_eq!(
        i32::try_from(i32::MAX as i64 + 1).unwrap_err().to_string(),
        err.reason
    );
}

#[test]
fn a_mapping_row_is_read_from_its_three_ids_in_column_order() {
    assert_eq!(
        mapping_from_ids(1, 2, 3),
        Ok(MappingRow {
            app_id: AppId(1),
            indexer_id: IndexerId(2),
            remote_indexer_id: RemoteIndexerId(3),
        })
    );
    let err = mapping_from_ids(1, i64::MAX, i64::MIN).unwrap_err();
    assert_eq!(err.field, "app_indexer_map.indexer_id");
}

#[test]
fn bytes_are_written_as_two_lowercase_hex_digits_each() {
    assert_eq!(oxidarr::db::hex_string(&[0x00, 0x0f, 0xa5, 0xff]), "000fa5ff");
    assert_eq!(oxidarr::db::hex_string(&[]), "");
}

#[test]
fn a_generated_api_key_is_32_lowercase_hex_digits() {
    let a = oxidarr::db::generate_api_key();
    let b = oxidarr::db::generate_api_key();
    assert_eq!(a.len(), 32);
    assert!(a.chars().all(|c| c.is_ascii_digit() || ('a'..='f').contains(&c)));
    assert_ne!(a, b);
}
